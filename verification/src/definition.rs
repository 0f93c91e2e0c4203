//! Definition graphs: how type aliases, projections and impls expand into one another.
use vstd::prelude::*;

use crate::ids::{NodeId, SpanId};
use crate::reach::{bfs, contains_id, is_bfs_depth, is_reach_set, lemma_reach_set_unique};
use crate::definition_order::{sort_edges, sort_nodes, stable_sorted_edges, stable_sorted_nodes};
use crate::error::ToolingError;
use crate::strmap::StrMap;
use crate::text::{seq_contains, str_contains, copy_str, decimal, join, join_seq, one_line, one_line_spec, push_char, push_str, push_u64, push_usize, str_chars, str_eq, texts};

verus! {

/// What a definition node stands for.
#[derive(Debug, Clone, Copy, PartialEq, Eq, Structural)]
pub enum DefinitionNodeKind {
    TypeAlias,
    Projection,
    Trait,
    ImplBranch,
    AssociatedTypeBody,
    WherePredicate,
    TypeRef,
    ExternalLeaf,
    Cycle,
    Unresolved,
}

/// How one definition node leads to another.
#[derive(Debug, Clone, Copy, PartialEq, Eq, Structural)]
pub enum DefinitionEdgeKind {
    ExpandsTo,
    ProjectsTo,
    ImplementedBy,
    HasWherePredicate,
    HasAssociatedTypeBody,
    References,
}

/// A node of a definition graph.
#[derive(Debug, Clone, PartialEq, Eq)]
pub struct DefinitionNode {
    pub id: NodeId,
    pub kind: DefinitionNodeKind,
    pub label: String,
    pub def_path: Option<String>,
    pub span_id: Option<SpanId>,
    pub source: Option<String>,
    pub metadata: StrMap,
}

/// A labelled edge of a definition graph.
#[derive(Debug, Clone, PartialEq, Eq)]
pub struct DefinitionEdge {
    pub from: NodeId,
    pub to: NodeId,
    pub kind: DefinitionEdgeKind,
    pub label: String,
    pub metadata: StrMap,
}

/// A definition graph: its roots, nodes and edges.
#[derive(Debug, Clone, PartialEq, Eq)]
pub struct DefinitionGraph {
    pub roots: Vec<NodeId>,
    pub nodes: Vec<DefinitionNode>,
    pub edges: Vec<DefinitionEdge>,
}

/// Counts that describe a definition graph.
#[derive(Debug, Clone, PartialEq, Eq, Structural)]
pub struct DefinitionStats {
    pub node_count: usize,
    pub edge_count: usize,
    pub projection_count: usize,
    pub impl_branch_count: usize,
    pub where_predicate_count: usize,
    pub cycle_count: usize,
    pub repeated_nodes: usize,
    pub external_leaf_count: usize,
    pub max_depth_leaves: usize,
    pub max_depth: usize,
}

/// How much long texts are shortened when rendered.
#[derive(Debug, Clone, Copy, PartialEq, Eq, Structural)]
pub enum DefinitionCompactMode {
    Off,
    Basic,
    Aggressive,
}

/// How a definition graph is rendered: compaction, focus texts, an optional new root, and
/// whether node sources are shown.
#[derive(Debug, Clone, PartialEq, Eq)]
pub struct DefinitionRenderOptions {
    pub compact: DefinitionCompactMode,
    pub focus: Vec<String>,
    pub root_node: Option<NodeId>,
    pub show_sources: bool,
}

impl Default for DefinitionRenderOptions {
    fn default() -> (r: Self)
        ensures
            r.compact == DefinitionCompactMode::Off,
            r.focus@.len() == 0,
            r.root_node is None,
            r.show_sources,
    {
        DefinitionRenderOptions { compact: DefinitionCompactMode::Off, focus: Vec::new(), root_node: None, show_sources: true }
    }
}

impl Default for DefinitionGraph {
    fn default() -> (r: Self)
        ensures
            r.roots@.len() == 0,
            r.nodes@.len() == 0,
            r.edges@.len() == 0,
    {
        DefinitionGraph { roots: Vec::new(), nodes: Vec::new(), edges: Vec::new() }
    }
}


/// The mathematical value of a [`DefinitionNode`].
pub struct DefNodeView {
    pub id: NodeId,
    pub kind: DefinitionNodeKind,
    pub label: Seq<char>,
    pub def_path: Option<Seq<char>>,
    pub span_id: Option<SpanId>,
    pub source: Option<Seq<char>>,
    pub metadata: Seq<(Seq<char>, Seq<char>)>,
}

/// The mathematical value of a [`DefinitionEdge`].
pub struct DefEdgeView {
    pub from: NodeId,
    pub to: NodeId,
    pub kind: DefinitionEdgeKind,
    pub label: Seq<char>,
    pub metadata: Seq<(Seq<char>, Seq<char>)>,
}

pub open spec fn opt_text(o: Option<String>) -> Option<Seq<char>> {
    match o {
        Some(s) => Some(s@),
        None => None,
    }
}

impl View for DefinitionNode {
    type V = DefNodeView;

    open spec fn view(&self) -> DefNodeView {
        DefNodeView {
            id: self.id,
            kind: self.kind,
            label: self.label@,
            def_path: opt_text(self.def_path),
            span_id: self.span_id,
            source: opt_text(self.source),
            metadata: self.metadata@,
        }
    }
}

impl View for DefinitionEdge {
    type V = DefEdgeView;

    open spec fn view(&self) -> DefEdgeView {
        DefEdgeView { from: self.from, to: self.to, kind: self.kind, label: self.label@, metadata: self.metadata@ }
    }
}

pub open spec fn node_views(s: Seq<DefinitionNode>) -> Seq<DefNodeView> {
    s.map_values(|n: DefinitionNode| n@)
}

pub open spec fn edge_views(s: Seq<DefinitionEdge>) -> Seq<DefEdgeView> {
    s.map_values(|e: DefinitionEdge| e@)
}

fn copy_opt(o: &Option<String>) -> (r: Option<String>)
    ensures
        opt_text(r) == opt_text(*o),
{
    match o {
        Some(s) => Some(s.clone()),
        None => None,
    }
}

impl DefinitionNode {
    /// A copy of this node.
    pub fn duplicate(&self) -> (r: Self)
        ensures
            r@ == self@,
    {
        DefinitionNode {
            id: self.id,
            kind: self.kind,
            label: self.label.clone(),
            def_path: copy_opt(&self.def_path),
            span_id: self.span_id,
            source: copy_opt(&self.source),
            metadata: self.metadata.clone(),
        }
    }
}

impl DefinitionEdge {
    /// A copy of this edge.
    pub fn duplicate(&self) -> (r: Self)
        ensures
            r@ == self@,
    {
        DefinitionEdge {
            from: self.from,
            to: self.to,
            kind: self.kind,
            label: self.label.clone(),
            metadata: self.metadata.clone(),
        }
    }
}

// ---------------------------------------------------------------------------
// Labels and text helpers
// ---------------------------------------------------------------------------

pub open spec fn edge_kind_label(k: DefinitionEdgeKind) -> Seq<char> {
    match k {
        DefinitionEdgeKind::ExpandsTo => "expands_to"@,
        DefinitionEdgeKind::ProjectsTo => "projects_to"@,
        DefinitionEdgeKind::ImplementedBy => "implemented_by"@,
        DefinitionEdgeKind::HasWherePredicate => "has_where_predicate"@,
        DefinitionEdgeKind::HasAssociatedTypeBody => "has_associated_type_body"@,
        DefinitionEdgeKind::References => "references"@,
    }
}

fn edge_kind(kind: DefinitionEdgeKind) -> (r: &'static str)
    ensures
        r@ == edge_kind_label(kind),
{
    match kind {
        DefinitionEdgeKind::ExpandsTo => "expands_to",
        DefinitionEdgeKind::ProjectsTo => "projects_to",
        DefinitionEdgeKind::ImplementedBy => "implemented_by",
        DefinitionEdgeKind::HasWherePredicate => "has_where_predicate",
        DefinitionEdgeKind::HasAssociatedTypeBody => "has_associated_type_body",
        DefinitionEdgeKind::References => "references",
    }
}

pub open spec fn node_kind_label(k: DefinitionNodeKind) -> Seq<char> {
    match k {
        DefinitionNodeKind::TypeAlias => "type_alias"@,
        DefinitionNodeKind::Projection => "projection"@,
        DefinitionNodeKind::Trait => "trait"@,
        DefinitionNodeKind::ImplBranch => "impl_branch"@,
        DefinitionNodeKind::AssociatedTypeBody => "associated_type_body"@,
        DefinitionNodeKind::WherePredicate => "where_predicate"@,
        DefinitionNodeKind::TypeRef => "type_ref"@,
        DefinitionNodeKind::ExternalLeaf => "external_leaf"@,
        DefinitionNodeKind::Cycle => "cycle"@,
        DefinitionNodeKind::Unresolved => "unresolved"@,
    }
}

fn node_kind(kind: DefinitionNodeKind) -> (r: &'static str)
    ensures
        r@ == node_kind_label(kind),
{
    match kind {
        DefinitionNodeKind::TypeAlias => "type_alias",
        DefinitionNodeKind::Projection => "projection",
        DefinitionNodeKind::Trait => "trait",
        DefinitionNodeKind::ImplBranch => "impl_branch",
        DefinitionNodeKind::AssociatedTypeBody => "associated_type_body",
        DefinitionNodeKind::WherePredicate => "where_predicate",
        DefinitionNodeKind::TypeRef => "type_ref",
        DefinitionNodeKind::ExternalLeaf => "external_leaf",
        DefinitionNodeKind::Cycle => "cycle",
        DefinitionNodeKind::Unresolved => "unresolved",
    }
}

/// The Graphviz shape of a node kind.
pub open spec fn dot_shape_label(k: DefinitionNodeKind) -> Seq<char> {
    match k {
        DefinitionNodeKind::TypeAlias => "ellipse"@,
        DefinitionNodeKind::Projection => "diamond"@,
        DefinitionNodeKind::Trait => "hexagon"@,
        DefinitionNodeKind::ImplBranch => "box"@,
        DefinitionNodeKind::AssociatedTypeBody => "ellipse"@,
        DefinitionNodeKind::WherePredicate => "note"@,
        DefinitionNodeKind::TypeRef => "box"@,
        DefinitionNodeKind::ExternalLeaf => "box"@,
        DefinitionNodeKind::Cycle => "octagon"@,
        DefinitionNodeKind::Unresolved => "octagon"@,
    }
}

fn dot_shape(kind: DefinitionNodeKind) -> (r: &'static str)
    ensures
        r@ == dot_shape_label(kind),
{
    match kind {
        DefinitionNodeKind::TypeAlias => "ellipse",
        DefinitionNodeKind::Projection => "diamond",
        DefinitionNodeKind::Trait => "hexagon",
        DefinitionNodeKind::ImplBranch => "box",
        DefinitionNodeKind::AssociatedTypeBody => "ellipse",
        DefinitionNodeKind::WherePredicate => "note",
        DefinitionNodeKind::TypeRef => "box",
        DefinitionNodeKind::ExternalLeaf => "box",
        DefinitionNodeKind::Cycle => "octagon",
        DefinitionNodeKind::Unresolved => "octagon",
    }
}

/// `s` with each `c` replaced by `r`.
pub open spec fn replace_char(s: Seq<char>, c: char, r: Seq<char>) -> Seq<char>
    decreases s.len(),
{
    if s.len() == 0 {
        Seq::empty()
    } else {
        replace_char(s.drop_last(), c, r) + if s.last() == c {
            r
        } else {
            seq![s.last()]
        }
    }
}

fn push_replaced(out: &mut String, s: &str, c: char, r: &str)
    ensures
        final(out)@ == old(out)@ + replace_char(s@, c, r@),
{
    let v = str_chars(s);
    let ghost start = out@;
    let mut i: usize = 0;
    assert(v@.take(0) =~= Seq::<char>::empty());
    while i < v.len()
        invariant
            i <= v.len(),
            v@ == s@,
            out@ == start + replace_char(v@.take(i as int), c, r@),
        decreases v.len() - i,
    {
        assert(v@.take(i + 1).drop_last() =~= v@.take(i as int));
        assert(v@.take(i + 1).last() == v@[i as int]);
        if v[i] == c {
            push_str(out, r);
        } else {
            push_char(out, v[i]);
            assert(seq![v@[i as int]] =~= Seq::<char>::empty().push(v@[i as int]));
        }
        assert(out@ =~= start + replace_char(v@.take(i + 1), c, r@));
        i += 1;
    }
    assert(v@.take(v.len() as int) =~= v@);
}

/// A text made safe inside a double-quoted Graphviz label: one line, `\` and `"` escaped.
pub open spec fn escape_dot_spec(s: Seq<char>) -> Seq<char> {
    replace_char(replace_char(one_line_spec(s), '\\', "\\\\"@), '"', "\\\""@)
}

fn push_escaped_dot(out: &mut String, s: &str)
    ensures
        final(out)@ == old(out)@ + escape_dot_spec(s@),
{
    let line = one_line(s);
    let mut first = String::new();
    push_replaced(&mut first, line.as_str(), '\\', "\\\\");
    assert(first@ =~= replace_char(one_line_spec(s@), '\\', "\\\\"@));
    push_replaced(out, first.as_str(), '"', "\\\"");
}

/// `s` shortened to `limit` characters by cutting out its middle (for limits above 8) or its
/// end (for smaller limits).
pub open spec fn truncate_middle_spec(s: Seq<char>, limit: nat) -> Seq<char> {
    if s.len() <= limit {
        s
    } else if limit <= 8 {
        s.take(limit as int)
    } else {
        let keep = limit - 3;
        let left = keep / 2;
        let right = keep - left;
        s.take(left) + "..."@ + s.skip(s.len() - right)
    }
}

/// A definition text on one line, shortened as the compaction mode asks.
pub open spec fn format_definition_spec(s: Seq<char>, compact: DefinitionCompactMode) -> Seq<char> {
    let line = one_line_spec(s);
    match compact {
        DefinitionCompactMode::Off => line,
        DefinitionCompactMode::Basic => truncate_middle_spec(line, 180),
        DefinitionCompactMode::Aggressive => truncate_middle_spec(line, 96),
    }
}

fn truncate_middle(value: &str, limit: usize) -> (r: String)
    ensures
        r@ == truncate_middle_spec(value@, limit as nat),
{
    let v = str_chars(value);
    if v.len() <= limit {
        return crate::text::copy_str(value);
    }
    if limit <= 8 {
        return crate::text::string_from_range(&v, 0, limit);
    }
    let keep = limit - 3;
    let left = keep / 2;
    let right = keep - left;
    let mut out = crate::text::string_from_range(&v, 0, left);
    push_str(&mut out, "...");
    crate::text::push_range(&mut out, &v, v.len() - right, v.len());
    assert(v@.subrange(v.len() - right, v.len() as int) =~= v@.skip(v.len() - right));
    assert(v@.subrange(0, left as int) =~= v@.take(left as int));
    out
}

fn format_definition_text(value: &str, compact: DefinitionCompactMode) -> (r: String)
    ensures
        r@ == format_definition_spec(value@, compact),
{
    let line = one_line(value);
    match compact {
        DefinitionCompactMode::Off => line,
        DefinitionCompactMode::Basic => truncate_middle(line.as_str(), 180),
        DefinitionCompactMode::Aggressive => truncate_middle(line.as_str(), 96),
    }
}


// ---------------------------------------------------------------------------
// Graphviz and Mermaid
// ---------------------------------------------------------------------------

/// The texts `f` gives for the items of `s`, one after another.
pub open spec fn concat_map<A>(s: Seq<A>, f: spec_fn(A) -> Seq<char>) -> Seq<char>
    decreases s.len(),
{
    if s.len() == 0 {
        Seq::empty()
    } else {
        concat_map(s.drop_last(), f) + f(s.last())
    }
}

pub open spec fn dot_node_line(n: DefinitionNode) -> Seq<char> {
    "  n"@ + decimal(n.id.0 as nat) + " [label=\""@ + escape_dot_spec(n.label@) + "\" shape="@ + dot_shape_label(n.kind)
        + "];\n"@
}

pub open spec fn dot_edge_line(e: DefinitionEdge) -> Seq<char> {
    "  n"@ + decimal(e.from.0 as nat) + " -> n"@ + decimal(e.to.0 as nat) + " [label=\""@ + escape_dot_spec(e.label@)
        + "\"];\n"@
}

/// The graph in Graphviz's dot language: one statement per node, then one per edge.
pub open spec fn dot_spec(g: DefinitionGraph) -> Seq<char> {
    "digraph definition {\n  rankdir=TB;\n"@ + concat_map(g.nodes@, |n: DefinitionNode| dot_node_line(n)) + concat_map(
        g.edges@,
        |e: DefinitionEdge| dot_edge_line(e),
    ) + "}"@
}

/// A Mermaid label: `"` becomes `'`.
pub open spec fn mermaid_label(s: Seq<char>) -> Seq<char> {
    replace_char(s, '"', "'"@)
}

pub open spec fn mermaid_node_line(n: DefinitionNode) -> Seq<char> {
    let id = decimal(n.id.0 as nat);
    let label = mermaid_label(n.label@);
    let shape = match n.kind {
        DefinitionNodeKind::TypeAlias => "([\""@ + label + "\"])"@,
        DefinitionNodeKind::AssociatedTypeBody => "([\""@ + label + "\"])"@,
        DefinitionNodeKind::Projection => "{\""@ + label + "\"}"@,
        DefinitionNodeKind::WherePredicate => "((\""@ + label + "\"))"@,
        _ => "[\""@ + label + "\"]"@,
    };
    "  n"@ + id + shape + "\n"@
}

pub open spec fn mermaid_edge_line(e: DefinitionEdge) -> Seq<char> {
    "  n"@ + decimal(e.from.0 as nat) + " -->|"@ + mermaid_label(e.label@) + "| n"@ + decimal(e.to.0 as nat) + "\n"@
}

/// The graph as a Mermaid flowchart: one line per node, then one per edge.
pub open spec fn mermaid_spec(g: DefinitionGraph) -> Seq<char> {
    "flowchart TD\n"@ + concat_map(g.nodes@, |n: DefinitionNode| mermaid_node_line(n)) + concat_map(
        g.edges@,
        |e: DefinitionEdge| mermaid_edge_line(e),
    )
}

fn push_dot_node(out: &mut String, n: &DefinitionNode)
    ensures
        final(out)@ == old(out)@ + dot_node_line(*n),
{
    let ghost start = out@;
    push_str(out, "  n");
    push_u64(out, n.id.0);
    push_str(out, " [label=\"");
    push_escaped_dot(out, n.label.as_str());
    push_str(out, "\" shape=");
    push_str(out, dot_shape(n.kind));
    push_str(out, "];\n");
    assert(out@ =~= start + dot_node_line(*n));
}

fn push_dot_edge(out: &mut String, e: &DefinitionEdge)
    ensures
        final(out)@ == old(out)@ + dot_edge_line(*e),
{
    let ghost start = out@;
    push_str(out, "  n");
    push_u64(out, e.from.0);
    push_str(out, " -> n");
    push_u64(out, e.to.0);
    push_str(out, " [label=\"");
    push_escaped_dot(out, e.label.as_str());
    push_str(out, "\"];\n");
    assert(out@ =~= start + dot_edge_line(*e));
}

fn push_mermaid_node(out: &mut String, n: &DefinitionNode)
    ensures
        final(out)@ == old(out)@ + mermaid_node_line(*n),
{
    let ghost start = out@;
    push_str(out, "  n");
    push_u64(out, n.id.0);
    let (open, close) = match n.kind {
        DefinitionNodeKind::TypeAlias => ("([\"", "\"])"),
        DefinitionNodeKind::AssociatedTypeBody => ("([\"", "\"])"),
        DefinitionNodeKind::Projection => ("{\"", "\"}"),
        DefinitionNodeKind::WherePredicate => ("((\"", "\"))"),
        _ => ("[\"", "\"]"),
    };
    let ghost mid = out@;
    push_str(out, open);
    push_replaced(out, n.label.as_str(), '"', "'");
    push_str(out, close);
    assert(out@ =~= mid + (open@ + mermaid_label(n.label@) + close@));
    push_str(out, "\n");
    assert(out@ =~= start + mermaid_node_line(*n));
}

fn push_mermaid_edge(out: &mut String, e: &DefinitionEdge)
    ensures
        final(out)@ == old(out)@ + mermaid_edge_line(*e),
{
    let ghost start = out@;
    push_str(out, "  n");
    push_u64(out, e.from.0);
    push_str(out, " -->|");
    push_replaced(out, e.label.as_str(), '"', "'");
    push_str(out, "| n");
    push_u64(out, e.to.0);
    push_str(out, "\n");
    assert(out@ =~= start + mermaid_edge_line(*e));
}

impl DefinitionGraph {
    /// The graph in Graphviz's dot language.
    pub fn to_dot(&self) -> (r: String)
        ensures
            r@ == dot_spec(*self),
    {
        let mut out = String::new();
        push_str(&mut out, "digraph definition {\n  rankdir=TB;\n");
        let ghost head = out@;
        let ghost fnode = |n: DefinitionNode| dot_node_line(n);
        let ghost fedge = |e: DefinitionEdge| dot_edge_line(e);
        let mut i: usize = 0;
        assert(self.nodes@.take(0) =~= Seq::<DefinitionNode>::empty());
        assert(out@ =~= head + concat_map(self.nodes@.take(0), fnode));
        while i < self.nodes.len()
            invariant
                i <= self.nodes.len(),
                fnode == (|n: DefinitionNode| dot_node_line(n)),
                out@ == head + concat_map(self.nodes@.take(i as int), fnode),
            decreases self.nodes.len() - i,
        {
            push_dot_node(&mut out, &self.nodes[i]);
            assert(self.nodes@.take(i + 1).drop_last() =~= self.nodes@.take(i as int));
            assert(self.nodes@.take(i + 1).last() == self.nodes@[i as int]);
            assert(out@ =~= head + concat_map(self.nodes@.take(i + 1), fnode));
            i += 1;
        }
        assert(self.nodes@.take(self.nodes.len() as int) =~= self.nodes@);
        let ghost mid = out@;
        let mut j: usize = 0;
        assert(self.edges@.take(0) =~= Seq::<DefinitionEdge>::empty());
        assert(out@ =~= mid + concat_map(self.edges@.take(0), fedge));
        while j < self.edges.len()
            invariant
                j <= self.edges.len(),
                fedge == (|e: DefinitionEdge| dot_edge_line(e)),
                out@ == mid + concat_map(self.edges@.take(j as int), fedge),
            decreases self.edges.len() - j,
        {
            push_dot_edge(&mut out, &self.edges[j]);
            assert(self.edges@.take(j + 1).drop_last() =~= self.edges@.take(j as int));
            assert(self.edges@.take(j + 1).last() == self.edges@[j as int]);
            assert(out@ =~= mid + concat_map(self.edges@.take(j + 1), fedge));
            j += 1;
        }
        assert(self.edges@.take(self.edges.len() as int) =~= self.edges@);
        push_str(&mut out, "}");
        assert(out@ =~= dot_spec(*self));
        out
    }

    /// The graph as a Mermaid flowchart.
    pub fn to_mermaid(&self) -> (r: String)
        ensures
            r@ == mermaid_spec(*self),
    {
        let mut out = String::new();
        push_str(&mut out, "flowchart TD\n");
        let ghost head = out@;
        let ghost fnode = |n: DefinitionNode| mermaid_node_line(n);
        let ghost fedge = |e: DefinitionEdge| mermaid_edge_line(e);
        let mut i: usize = 0;
        assert(self.nodes@.take(0) =~= Seq::<DefinitionNode>::empty());
        assert(out@ =~= head + concat_map(self.nodes@.take(0), fnode));
        while i < self.nodes.len()
            invariant
                i <= self.nodes.len(),
                fnode == (|n: DefinitionNode| mermaid_node_line(n)),
                out@ == head + concat_map(self.nodes@.take(i as int), fnode),
            decreases self.nodes.len() - i,
        {
            push_mermaid_node(&mut out, &self.nodes[i]);
            assert(self.nodes@.take(i + 1).drop_last() =~= self.nodes@.take(i as int));
            assert(self.nodes@.take(i + 1).last() == self.nodes@[i as int]);
            assert(out@ =~= head + concat_map(self.nodes@.take(i + 1), fnode));
            i += 1;
        }
        assert(self.nodes@.take(self.nodes.len() as int) =~= self.nodes@);
        let ghost mid = out@;
        let mut j: usize = 0;
        assert(self.edges@.take(0) =~= Seq::<DefinitionEdge>::empty());
        assert(out@ =~= mid + concat_map(self.edges@.take(0), fedge));
        while j < self.edges.len()
            invariant
                j <= self.edges.len(),
                fedge == (|e: DefinitionEdge| mermaid_edge_line(e)),
                out@ == mid + concat_map(self.edges@.take(j as int), fedge),
            decreases self.edges.len() - j,
        {
            push_mermaid_edge(&mut out, &self.edges[j]);
            assert(self.edges@.take(j + 1).drop_last() =~= self.edges@.take(j as int));
            assert(self.edges@.take(j + 1).last() == self.edges@[j as int]);
            assert(out@ =~= mid + concat_map(self.edges@.take(j + 1), fedge));
            j += 1;
        }
        assert(self.edges@.take(self.edges.len() as int) =~= self.edges@);
        assert(out@ =~= mermaid_spec(*self));
        out
    }
}


// ---------------------------------------------------------------------------
// Roots, arcs and statistics
// ---------------------------------------------------------------------------

/// Some edge of `edges` ends at `id`.
pub open spec fn is_edge_target(edges: Seq<DefinitionEdge>, id: NodeId) -> bool {
    exists|i: int| 0 <= i < edges.len() && (#[trigger] edges[i]).to == id
}

/// The identifiers of the nodes that no edge ends at, in node order.
pub open spec fn inferred_roots_spec(nodes: Seq<DefinitionNode>, edges: Seq<DefinitionEdge>) -> Seq<NodeId>
    decreases nodes.len(),
{
    if nodes.len() == 0 {
        Seq::empty()
    } else {
        let rest = inferred_roots_spec(nodes.drop_last(), edges);
        if is_edge_target(edges, nodes.last().id) {
            rest
        } else {
            rest.push(nodes.last().id)
        }
    }
}

/// The roots a rendering starts from: the graph's own, or the inferred ones when it has none.
pub open spec fn tree_roots(g: DefinitionGraph) -> Seq<NodeId> {
    if g.roots@.len() == 0 {
        inferred_roots_spec(g.nodes@, g.edges@)
    } else {
        g.roots@
    }
}

/// The edges as arcs between identifier values, forwards or backwards.
pub open spec fn edge_arcs(edges: Seq<DefinitionEdge>, backwards: bool) -> Seq<(u64, u64)> {
    edges.map_values(|e: DefinitionEdge| if backwards {
        (e.to.0, e.from.0)
    } else {
        (e.from.0, e.to.0)
    })
}

/// The values of identifiers.
pub open spec fn id_values(ids: Seq<NodeId>) -> Seq<u64> {
    ids.map_values(|n: NodeId| n.0)
}

fn is_target(edges: &Vec<DefinitionEdge>, id: NodeId) -> (b: bool)
    ensures
        b == is_edge_target(edges@, id),
{
    let mut i: usize = 0;
    while i < edges.len()
        invariant
            i <= edges.len(),
            forall|j: int| 0 <= j < i ==> (#[trigger] edges@[j]).to != id,
        decreases edges.len() - i,
    {
        if edges[i].to.0 == id.0 {
            assert(edges@[i as int].to == id);
            return true;
        }
        i += 1;
    }
    false
}

fn inferred_roots(g: &DefinitionGraph) -> (r: Vec<NodeId>)
    ensures
        r@ == inferred_roots_spec(g.nodes@, g.edges@),
{
    let mut r: Vec<NodeId> = Vec::new();
    let mut i: usize = 0;
    assert(g.nodes@.take(0) =~= Seq::<DefinitionNode>::empty());
    while i < g.nodes.len()
        invariant
            i <= g.nodes.len(),
            r@ == inferred_roots_spec(g.nodes@.take(i as int), g.edges@),
        decreases g.nodes.len() - i,
    {
        let id = g.nodes[i].id;
        assert(g.nodes@.take(i + 1).drop_last() =~= g.nodes@.take(i as int));
        assert(g.nodes@.take(i + 1).last() == g.nodes@[i as int]);
        if !is_target(&g.edges, id) {
            r.push(id);
        }
        i += 1;
    }
    assert(g.nodes@.take(g.nodes.len() as int) =~= g.nodes@);
    r
}

fn copy_ids(v: &Vec<NodeId>) -> (r: Vec<NodeId>)
    ensures
        r@ == v@,
{
    let mut r: Vec<NodeId> = Vec::new();
    let mut i: usize = 0;
    while i < v.len()
        invariant
            i <= v.len(),
            r@ == v@.take(i as int),
        decreases v.len() - i,
    {
        r.push(v[i]);
        assert(v@.take(i + 1) =~= v@.take(i as int).push(v@[i as int]));
        i += 1;
    }
    assert(v@.take(v.len() as int) =~= v@);
    r
}

fn root_list(g: &DefinitionGraph) -> (r: Vec<NodeId>)
    ensures
        r@ == tree_roots(*g),
{
    if g.roots.len() == 0 {
        inferred_roots(g)
    } else {
        copy_ids(&g.roots)
    }
}

fn arcs_of(edges: &Vec<DefinitionEdge>, backwards: bool) -> (r: Vec<(u64, u64)>)
    ensures
        r@ == edge_arcs(edges@, backwards),
{
    let mut r: Vec<(u64, u64)> = Vec::new();
    let mut i: usize = 0;
    while i < edges.len()
        invariant
            i <= edges.len(),
            r@ == edge_arcs(edges@.take(i as int), backwards),
        decreases edges.len() - i,
    {
        let e = &edges[i];
        if backwards {
            r.push((e.to.0, e.from.0));
        } else {
            r.push((e.from.0, e.to.0));
        }
        assert(edge_arcs(edges@.take(i + 1), backwards) =~= edge_arcs(edges@.take(i as int), backwards).push(r@.last()));
        i += 1;
    }
    assert(edges@.take(edges.len() as int) =~= edges@);
    r
}

fn values_of(ids: &Vec<NodeId>) -> (r: Vec<u64>)
    ensures
        r@ == id_values(ids@),
{
    let mut r: Vec<u64> = Vec::new();
    let mut i: usize = 0;
    while i < ids.len()
        invariant
            i <= ids.len(),
            r@ == id_values(ids@.take(i as int)),
        decreases ids.len() - i,
    {
        r.push(ids[i].0);
        assert(id_values(ids@.take(i + 1)) =~= id_values(ids@.take(i as int)).push(ids@[i as int].0));
        i += 1;
    }
    assert(ids@.take(ids.len() as int) =~= ids@);
    r
}

/// The `reason` a node's metadata gives, if any.
pub open spec fn node_reason(n: DefinitionNode) -> Option<Seq<char>> {
    n.metadata.spec_get("reason"@)
}

/// The number of nodes of `nodes` for which `p` holds.
pub open spec fn count_nodes(nodes: Seq<DefinitionNode>, p: spec_fn(DefinitionNode) -> bool) -> nat
    decreases nodes.len(),
{
    if nodes.len() == 0 {
        0
    } else {
        count_nodes(nodes.drop_last(), p) + if p(nodes.last()) {
            1nat
        } else {
            0nat
        }
    }
}

pub open spec fn is_kind(k: DefinitionNodeKind) -> spec_fn(DefinitionNode) -> bool {
    |n: DefinitionNode| n.kind == k
}

/// A cycle node that marks a definition expanded before.
pub open spec fn is_repeat(n: DefinitionNode) -> bool {
    n.kind == DefinitionNodeKind::Cycle && node_reason(n) == Some("already_expanded"@)
}

/// A cycle node that marks a true cycle.
pub open spec fn is_true_cycle(n: DefinitionNode) -> bool {
    n.kind == DefinitionNodeKind::Cycle && node_reason(n) != Some("already_expanded"@)
}

/// An unresolved node cut off by the depth limit.
pub open spec fn is_depth_leaf(n: DefinitionNode) -> bool {
    n.kind == DefinitionNodeKind::Unresolved && node_reason(n) == Some("max_depth"@)
}

/// The statistics of a graph: its sizes, the number of nodes of each counted kind (cycle nodes
/// split into true cycles and repeats, unresolved nodes counted when cut off by the depth limit),
/// and the breadth-first depth of the deepest node reachable from its roots.
pub open spec fn stats_ok(g: DefinitionGraph, s: DefinitionStats) -> bool {
    &&& s.node_count == g.nodes@.len()
    &&& s.edge_count == g.edges@.len()
    &&& s.projection_count == count_nodes(g.nodes@, is_kind(DefinitionNodeKind::Projection))
    &&& s.impl_branch_count == count_nodes(g.nodes@, is_kind(DefinitionNodeKind::ImplBranch))
    &&& s.where_predicate_count == count_nodes(g.nodes@, is_kind(DefinitionNodeKind::WherePredicate))
    &&& s.external_leaf_count == count_nodes(g.nodes@, is_kind(DefinitionNodeKind::ExternalLeaf))
    &&& s.cycle_count == count_nodes(g.nodes@, |n: DefinitionNode| is_true_cycle(n))
    &&& s.repeated_nodes == count_nodes(g.nodes@, |n: DefinitionNode| is_repeat(n))
    &&& s.max_depth_leaves == count_nodes(g.nodes@, |n: DefinitionNode| is_depth_leaf(n))
    &&& is_bfs_depth(edge_arcs(g.edges@, false), id_values(tree_roots(g)).to_set(), s.max_depth as nat)
}

proof fn lemma_count_step(nodes: Seq<DefinitionNode>, p: spec_fn(DefinitionNode) -> bool, i: int)
    requires
        0 <= i < nodes.len(),
    ensures
        count_nodes(nodes.take(i + 1), p) == count_nodes(nodes.take(i), p) + if p(nodes[i]) {
            1nat
        } else {
            0nat
        },
        count_nodes(nodes.take(i), p) <= i,
{
    assert(nodes.take(i + 1).drop_last() =~= nodes.take(i));
    lemma_count_bound(nodes.take(i), p);
}

proof fn lemma_count_bound(nodes: Seq<DefinitionNode>, p: spec_fn(DefinitionNode) -> bool)
    ensures
        count_nodes(nodes, p) <= nodes.len(),
    decreases nodes.len(),
{
    if nodes.len() > 0 {
        lemma_count_bound(nodes.drop_last(), p);
    }
}

fn reason_is(n: &DefinitionNode, expected: &str) -> (b: bool)
    ensures
        b == (node_reason(*n) == Some(expected@)),
{
    match n.metadata.get("reason") {
        Some(reason) => crate::text::str_eq(reason.as_str(), expected),
        None => false,
    }
}

impl DefinitionGraph {
    /// The breadth-first depth of the deepest node reachable from the roots.
    fn max_depth(&self) -> (d: usize)
        ensures
            is_bfs_depth(edge_arcs(self.edges@, false), id_values(tree_roots(*self)).to_set(), d as nat),
    {
        let roots = root_list(self);
        let arcs = arcs_of(&self.edges, false);
        let start = values_of(&roots);
        let (depth, _) = bfs(&arcs, &start);
        depth
    }

    /// The statistics of the graph: see [`stats_ok`].
    pub fn stats(&self) -> (s: DefinitionStats)
        ensures
            stats_ok(*self, s),
    {
        let mut projection_count: usize = 0;
        let mut impl_branch_count: usize = 0;
        let mut where_predicate_count: usize = 0;
        let mut cycle_count: usize = 0;
        let mut repeated_nodes: usize = 0;
        let mut external_leaf_count: usize = 0;
        let mut max_depth_leaves: usize = 0;
        let ghost nodes = self.nodes@;
        let mut i: usize = 0;
        while i < self.nodes.len()
            invariant
                i <= self.nodes.len(),
                nodes == self.nodes@,
                projection_count == count_nodes(nodes.take(i as int), is_kind(DefinitionNodeKind::Projection)),
                impl_branch_count == count_nodes(nodes.take(i as int), is_kind(DefinitionNodeKind::ImplBranch)),
                where_predicate_count == count_nodes(nodes.take(i as int), is_kind(DefinitionNodeKind::WherePredicate)),
                external_leaf_count == count_nodes(nodes.take(i as int), is_kind(DefinitionNodeKind::ExternalLeaf)),
                cycle_count == count_nodes(nodes.take(i as int), |n: DefinitionNode| is_true_cycle(n)),
                repeated_nodes == count_nodes(nodes.take(i as int), |n: DefinitionNode| is_repeat(n)),
                max_depth_leaves == count_nodes(nodes.take(i as int), |n: DefinitionNode| is_depth_leaf(n)),
            decreases self.nodes.len() - i,
        {
            let n = &self.nodes[i];
            proof {
                lemma_count_step(nodes, is_kind(DefinitionNodeKind::Projection), i as int);
                lemma_count_step(nodes, is_kind(DefinitionNodeKind::ImplBranch), i as int);
                lemma_count_step(nodes, is_kind(DefinitionNodeKind::WherePredicate), i as int);
                lemma_count_step(nodes, is_kind(DefinitionNodeKind::ExternalLeaf), i as int);
                lemma_count_step(nodes, |n: DefinitionNode| is_true_cycle(n), i as int);
                lemma_count_step(nodes, |n: DefinitionNode| is_repeat(n), i as int);
                lemma_count_step(nodes, |n: DefinitionNode| is_depth_leaf(n), i as int);
            }
            match n.kind {
                DefinitionNodeKind::Projection => projection_count += 1,
                DefinitionNodeKind::ImplBranch => impl_branch_count += 1,
                DefinitionNodeKind::WherePredicate => where_predicate_count += 1,
                DefinitionNodeKind::Cycle => {
                    if reason_is(n, "already_expanded") {
                        repeated_nodes += 1;
                    } else {
                        cycle_count += 1;
                    }
                },
                DefinitionNodeKind::ExternalLeaf => external_leaf_count += 1,
                DefinitionNodeKind::Unresolved => {
                    if reason_is(n, "max_depth") {
                        max_depth_leaves += 1;
                    }
                },
                _ => {},
            }
            i += 1;
        }
        assert(nodes.take(self.nodes.len() as int) =~= nodes);
        DefinitionStats {
            node_count: self.nodes.len(),
            edge_count: self.edges.len(),
            projection_count,
            impl_branch_count,
            where_predicate_count,
            cycle_count,
            repeated_nodes,
            external_leaf_count,
            max_depth_leaves,
            max_depth: self.max_depth(),
        }
    }
}


// ---------------------------------------------------------------------------
// The tree text
// ---------------------------------------------------------------------------

/// `depth` levels of two-space indentation.
pub open spec fn indent(depth: nat) -> Seq<char>
    decreases depth,
{
    if depth == 0 {
        Seq::empty()
    } else {
        indent((depth - 1) as nat) + "  "@
    }
}

/// The position of the node that a lookup by `id` finds: the last node with that identifier.
pub open spec fn node_at(nodes: Seq<DefinitionNode>, id: NodeId) -> Option<int>
    decreases nodes.len(),
{
    if nodes.len() == 0 {
        None
    } else if nodes.last().id == id {
        Some(nodes.len() - 1)
    } else {
        node_at(nodes.drop_last(), id)
    }
}

/// The edges that leave `id`, in edge order.
pub open spec fn children_of(edges: Seq<DefinitionEdge>, id: NodeId) -> Seq<DefinitionEdge>
    decreases edges.len(),
{
    if edges.len() == 0 {
        Seq::empty()
    } else {
        let rest = children_of(edges.drop_last(), id);
        if edges.last().from == id {
            rest.push(edges.last())
        } else {
            rest
        }
    }
}

/// The first node, not itself a cycle marker, whose `definition_key` is `key`.
pub open spec fn key_target(nodes: Seq<DefinitionNode>, key: Seq<char>) -> Option<NodeId>
    decreases nodes.len(),
{
    if nodes.len() == 0 {
        None
    } else {
        match key_target(nodes.drop_last(), key) {
            Some(t) => Some(t),
            None => {
                let n = nodes.last();
                if n.kind != DefinitionNodeKind::Cycle && n.metadata.spec_get("definition_key"@) == Some(key) {
                    Some(n.id)
                } else {
                    None
                }
            },
        }
    }
}

/// What a node's line ends with: where a cycle marker points, the depth-limit mark, or the
/// node's reason.
pub open spec fn reason_part(nodes: Seq<DefinitionNode>, compact: DefinitionCompactMode, show_sources: bool, n: DefinitionNode) -> Seq<char> {
    match n.kind {
        DefinitionNodeKind::Cycle => {
            let reason = match node_reason(n) {
                Some(r) => r,
                None => "cycle"@,
            };
            let key = match n.metadata.spec_get("cycle_key"@) {
                Some(k) => k,
                None => n.label@,
            };
            match key_target(nodes, key) {
                Some(t) => " "@ + reason + " -> node#"@ + decimal(t.0 as nat),
                None => " "@ + reason + " -> "@ + format_definition_spec(key, compact),
            }
        },
        _ => if is_depth_leaf(n) {
            " reason=max_depth"@
        } else {
            match node_reason(n) {
                Some(r) => " reason="@ + r,
                None => Seq::empty(),
            }
        },
    }
}

/// The line a node is written as at `depth`.
pub open spec fn node_line_spec(nodes: Seq<DefinitionNode>, compact: DefinitionCompactMode, show_sources: bool, n: DefinitionNode, depth: nat) -> Seq<char> {
    indent(depth) + "- "@ + node_kind_label(n.kind) + ": "@ + format_definition_spec(n.label@, compact) + match n.def_path {
        Some(p) => " ["@ + p@ + "]"@,
        None => Seq::empty(),
    } + match n.source {
        Some(src) => if show_sources && format_definition_spec(src@, compact) != n.label@ {
            " = "@ + format_definition_spec(src@, compact)
        } else {
            Seq::empty()
        },
        None => Seq::empty(),
    } + reason_part(nodes, compact, show_sources, n)
}

/// The identifiers of the nodes.
pub open spec fn node_id_set(nodes: Seq<DefinitionNode>) -> Set<NodeId> {
    nodes.map_values(|n: DefinitionNode| n.id).to_set()
}

/// How many node identifiers are not yet on `stack`.
pub open spec fn unvisited(nodes: Seq<DefinitionNode>, stack: Set<NodeId>) -> nat {
    node_id_set(nodes).difference(stack).len()
}

pub proof fn lemma_node_at(nodes: Seq<DefinitionNode>, id: NodeId)
    ensures
        match node_at(nodes, id) {
            Some(i) => 0 <= i < nodes.len() && nodes[i].id == id && node_id_set(nodes).contains(id),
            None => !node_id_set(nodes).contains(id),
        },
    decreases nodes.len(),
{
    broadcast use vstd::seq_lib::group_seq_properties;

    if nodes.len() > 0 {
        lemma_node_at(nodes.drop_last(), id);
        let m = nodes.map_values(|n: DefinitionNode| n.id);
        let m0 = nodes.drop_last().map_values(|n: DefinitionNode| n.id);
        assert(m =~= m0.push(nodes.last().id));
        if nodes.last().id == id {
            assert(m[nodes.len() - 1] == id);
        } else {
            match node_at(nodes, id) {
                Some(i) => {
                    assert(m0[i] == id);
                    assert(m[i] == id);
                },
                None => {
                    assert forall|k: int| 0 <= k < m.len() implies m[k] != id by {
                        if k < m0.len() {
                            assert(m[k] == m0[k]);
                            assert(!m0.to_set().contains(id));
                        }
                    }
                },
            }
        }
    }
}

pub proof fn lemma_unvisited_shrinks(nodes: Seq<DefinitionNode>, stack: Set<NodeId>, id: NodeId)
    requires
        node_id_set(nodes).contains(id),
        !stack.contains(id),
    ensures
        unvisited(nodes, stack.insert(id)) < unvisited(nodes, stack),
{
    broadcast use vstd::set::group_set_axioms, vstd::seq_lib::seq_to_set_is_finite;

    let all = node_id_set(nodes);
    assert(all.difference(stack.insert(id)) =~= all.difference(stack).remove(id));
    assert(all.difference(stack).contains(id));
    vstd::set_lib::lemma_len_subset(all.difference(stack), all);
}

/// The lines of the subtree of `id` at `depth`, with `stack` holding the nodes on the path
/// from the root: the node's line, then, unless the node is already on the path (a cycle line
/// then), each outgoing edge's line followed by the subtree of its target two levels deeper.
pub open spec fn tree_lines(
    nodes: Seq<DefinitionNode>,
    edges: Seq<DefinitionEdge>,
    compact: DefinitionCompactMode, show_sources: bool,
    id: NodeId,
    depth: nat,
    stack: Set<NodeId>,
) -> Seq<Seq<char>>
    decreases unvisited(nodes, stack), 0int, 0int,
{
    match node_at(nodes, id) {
        None => Seq::empty(),
        Some(i) => {
            let n = nodes[i];
            if stack.contains(id) {
                seq![node_line_spec(nodes, compact, show_sources, n, depth), indent(depth) + "  - cycle: node#"@ + decimal(n.id.0 as nat)]
            } else {
                proof {
                    lemma_node_at(nodes, id);
                    lemma_unvisited_shrinks(nodes, stack, id);
                }
                seq![node_line_spec(nodes, compact, show_sources, n, depth)] + edge_lines(
                    nodes,
                    edges,
                    compact,
                    show_sources,
                    children_of(edges, id),
                    depth,
                    stack.insert(id),
                )
            }
        },
    }
}

/// The lines of the edges `es` leaving a node at `depth`: each edge's line, then its target's subtree.
pub open spec fn edge_lines(
    nodes: Seq<DefinitionNode>,
    edges: Seq<DefinitionEdge>,
    compact: DefinitionCompactMode, show_sources: bool,
    es: Seq<DefinitionEdge>,
    depth: nat,
    stack: Set<NodeId>,
) -> Seq<Seq<char>>
    decreases unvisited(nodes, stack), 1int, es.len(),
{
    if es.len() == 0 {
        Seq::empty()
    } else {
        let e = es.last();
        edge_lines(nodes, edges, compact, show_sources, es.drop_last(), depth, stack) + seq![
            indent(depth + 1) + "=> "@ + e.label@ + ": "@ + edge_kind_label(e.kind),
        ] + tree_lines(nodes, edges, compact, show_sources, e.to, depth + 2, stack)
    }
}


impl DefinitionGraph {
    fn find_node(&self, id: NodeId) -> (r: Option<usize>)
        ensures
            match r {
                Some(i) => node_at(self.nodes@, id) == Some(i as int) && i < self.nodes.len(),
                None => node_at(self.nodes@, id) is None,
            },
    {
        let mut i = self.nodes.len();
        assert(self.nodes@.take(i as int) =~= self.nodes@);
        while i > 0
            invariant
                i <= self.nodes.len(),
                node_at(self.nodes@, id) == node_at(self.nodes@.take(i as int), id),
            decreases i,
        {
            assert(self.nodes@.take(i as int).last() == self.nodes@[i - 1]);
            assert(self.nodes@.take(i as int).drop_last() =~= self.nodes@.take(i - 1));
            if self.nodes[i - 1].id.0 == id.0 {
                return Some(i - 1);
            }
            i -= 1;
        }
        None
    }

    fn child_edges(&self, id: NodeId) -> (r: Vec<usize>)
        ensures
            forall|k: int| 0 <= k < r@.len() ==> r@[k] < self.edges@.len(),
            r@.map_values(|j: usize| self.edges@[j as int]) == children_of(self.edges@, id),
    {
        let mut r: Vec<usize> = Vec::new();
        let mut i: usize = 0;
        assert(self.edges@.take(0) =~= Seq::<DefinitionEdge>::empty());
        assert(r@.map_values(|j: usize| self.edges@[j as int]) =~= Seq::<DefinitionEdge>::empty());
        while i < self.edges.len()
            invariant
                i <= self.edges.len(),
                forall|k: int| 0 <= k < r@.len() ==> r@[k] < i,
                r@.map_values(|j: usize| self.edges@[j as int]) == children_of(self.edges@.take(i as int), id),
            decreases self.edges.len() - i,
        {
            assert(self.edges@.take(i + 1).drop_last() =~= self.edges@.take(i as int));
            assert(self.edges@.take(i + 1).last() == self.edges@[i as int]);
            let ghost before = r@;
            if self.edges[i].from.0 == id.0 {
                r.push(i);
                assert(r@.map_values(|j: usize| self.edges@[j as int]) =~= before.map_values(|j: usize| self.edges@[j as int]).push(
                    self.edges@[i as int],
                ));
            }
            i += 1;
        }
        assert(self.edges@.take(self.edges.len() as int) =~= self.edges@);
        r
    }

    fn find_key_target(&self, key: &str) -> (r: Option<NodeId>)
        ensures
            r == key_target(self.nodes@, key@),
    {
        let mut i: usize = 0;
        assert(self.nodes@.take(0) =~= Seq::<DefinitionNode>::empty());
        while i < self.nodes.len()
            invariant
                i <= self.nodes.len(),
                key_target(self.nodes@.take(i as int), key@) is None,
            decreases self.nodes.len() - i,
        {
            let n = &self.nodes[i];
            assert(self.nodes@.take(i + 1).drop_last() =~= self.nodes@.take(i as int));
            assert(self.nodes@.take(i + 1).last() == self.nodes@[i as int]);
            let is_cycle = match n.kind {
                DefinitionNodeKind::Cycle => true,
                _ => false,
            };
            if !is_cycle {
                match n.metadata.get("definition_key") {
                    Some(k) => {
                        if str_eq(k.as_str(), key) {
                            proof {
                                lemma_key_target_prefix(self.nodes@, key@, i + 1);
                            }
                            return Some(n.id);
                        }
                    },
                    None => {},
                }
            }
            i += 1;
        }
        assert(self.nodes@.take(self.nodes.len() as int) =~= self.nodes@);
        None
    }

    fn node_line(&self, n: &DefinitionNode, ind: &String, Ghost(depth): Ghost<nat>, options: &DefinitionRenderOptions) -> (r: String)
        requires
            ind@ == indent(depth),
        ensures
            r@ == node_line_spec(self.nodes@, options.compact, options.show_sources, *n, depth),
    {
        let mut line = ind.clone();
        push_str(&mut line, "- ");
        push_str(&mut line, node_kind(n.kind));
        push_str(&mut line, ": ");
        let label = format_definition_text(n.label.as_str(), options.compact);
        push_str(&mut line, label.as_str());
        let ghost head = line@;
        if let Some(p) = &n.def_path {
            push_str(&mut line, " [");
            push_str(&mut line, p.as_str());
            push_str(&mut line, "]");
        }
        let ghost with_path = line@;
        if options.show_sources {
            if let Some(src) = &n.source {
                let f = format_definition_text(src.as_str(), options.compact);
                if !str_eq(f.as_str(), n.label.as_str()) {
                    push_str(&mut line, " = ");
                    push_str(&mut line, f.as_str());
                }
            }
        }
        let ghost with_source = line@;
        let mut tail = String::new();
        match n.kind {
            DefinitionNodeKind::Cycle => {
                let reason = match n.metadata.get("reason") {
                    Some(r) => r.clone(),
                    None => copy_str("cycle"),
                };
                let key = match n.metadata.get("cycle_key") {
                    Some(k) => k.clone(),
                    None => n.label.clone(),
                };
                push_str(&mut tail, " ");
                push_str(&mut tail, reason.as_str());
                match self.find_key_target(key.as_str()) {
                    Some(t) => {
                        push_str(&mut tail, " -> node#");
                        push_u64(&mut tail, t.0);
                    },
                    None => {
                        push_str(&mut tail, " -> ");
                        let f = format_definition_text(key.as_str(), options.compact);
                        push_str(&mut tail, f.as_str());
                    },
                }
            },
            _ => {
                let unresolved = match n.kind {
                    DefinitionNodeKind::Unresolved => true,
                    _ => false,
                };
                if unresolved && reason_is(n, "max_depth") {
                    push_str(&mut tail, " reason=max_depth");
                } else {
                    match n.metadata.get("reason") {
                        Some(r) => {
                            push_str(&mut tail, " reason=");
                            push_str(&mut tail, r.as_str());
                        },
                        None => {},
                    }
                }
            },
        }
        assert(tail@ =~= reason_part(self.nodes@, options.compact, options.show_sources, *n));
        push_str(&mut line, tail.as_str());
        assert(line@ =~= node_line_spec(self.nodes@, options.compact, options.show_sources, *n, depth));
        line
    }

    /// Renders the subtree of `node_id` at `depth` into `lines`; `stack` holds the nodes on the
    /// path from the root and is left as it was found.
    fn render_tree_node(
        &self,
        node_id: NodeId,
        ind: &String,
        Ghost(depth): Ghost<nat>,
        Ghost(path): Ghost<Set<NodeId>>,
        stack: &mut Vec<NodeId>,
        lines: &mut Vec<String>,
        options: &DefinitionRenderOptions,
    )
        requires
            ind@ == indent(depth),
            path == old(stack)@.to_set(),
        ensures
            texts(final(lines)@) == texts(old(lines)@) + tree_lines(self.nodes@, self.edges@, options.compact, options.show_sources, node_id, depth, path),
            final(stack)@ == old(stack)@,
        decreases unvisited(self.nodes@, path),
    {
        let ghost start = texts(lines@);
        let i = match self.find_node(node_id) {
            Some(i) => i,
            None => {
                assert(texts(lines@) =~= start + Seq::<Seq<char>>::empty());
                return;
            },
        };
        let n = &self.nodes[i];
        let line = self.node_line(n, ind, Ghost(depth), options);
        let ghost before = lines@;
        lines.push(line);
        assert(texts(lines@) =~= texts(before).push(node_line_spec(self.nodes@, options.compact, options.show_sources, *n, depth)));
        let mut on_path = false;
        let mut s: usize = 0;
        while s < stack.len()
            invariant
                s <= stack.len(),
                on_path == (exists|j: int| 0 <= j < s && stack@[j] == node_id),
            decreases stack.len() - s,
        {
            if stack[s].0 == node_id.0 {
                on_path = true;
            }
            s += 1;
        }
        assert(on_path == path.contains(node_id)) by {
            if path.contains(node_id) {
                let j = choose|j: int| 0 <= j < stack@.len() && stack@[j] == node_id;
            }
        }
        if on_path {
            let mut cycle = ind.clone();
            push_str(&mut cycle, "  - cycle: node#");
            push_u64(&mut cycle, n.id.0);
            let ghost before = lines@;
            lines.push(cycle);
            assert(texts(lines@) =~= texts(before).push(cycle@));
            assert(texts(lines@) =~= start + tree_lines(self.nodes@, self.edges@, options.compact, options.show_sources, node_id, depth, path));
            return;
        }
        proof {
            lemma_node_at(self.nodes@, node_id);
            lemma_unvisited_shrinks(self.nodes@, path, node_id);
        }
        let ghost inner = path.insert(node_id);
        let ghost base = stack@;
        stack.push(node_id);
        assert(stack@.to_set() =~= inner) by {
            broadcast use vstd::seq_lib::group_seq_properties;
            base.lemma_push_to_set_commute(node_id);
        }
        let kids = self.child_edges(node_id);
        let ghost kid_edges = children_of(self.edges@, node_id);
        let mut edge_ind = ind.clone();
        push_str(&mut edge_ind, "  ");
        let mut child_ind = edge_ind.clone();
        push_str(&mut child_ind, "  ");
        assert(edge_ind@ =~= indent(depth + 1));
        assert(child_ind@ =~= indent(depth + 2));
        let ghost head = texts(lines@);
        let mut k: usize = 0;
        assert(kid_edges.take(0) =~= Seq::<DefinitionEdge>::empty());
        assert(texts(lines@) =~= head + edge_lines(self.nodes@, self.edges@, options.compact, options.show_sources, kid_edges.take(0), depth, inner));
        while k < kids.len()
            invariant
                k <= kids.len(),
                forall|q: int| 0 <= q < kids@.len() ==> kids@[q] < self.edges@.len(),
                kids@.map_values(|j: usize| self.edges@[j as int]) == kid_edges,
                kid_edges == children_of(self.edges@, node_id),
                edge_ind@ == indent(depth + 1),
                child_ind@ == indent(depth + 2),
                stack@ == base.push(node_id),
                stack@.to_set() == inner,
                inner == path.insert(node_id),
                unvisited(self.nodes@, inner) < unvisited(self.nodes@, path),
                texts(lines@) == head + edge_lines(self.nodes@, self.edges@, options.compact, options.show_sources, kid_edges.take(k as int), depth, inner),
            decreases kids.len() - k,
        {
            let e = &self.edges[kids[k]];
            assert(kid_edges[k as int] == *e);
            let mut edge_line = edge_ind.clone();
            push_str(&mut edge_line, "=> ");
            push_str(&mut edge_line, e.label.as_str());
            push_str(&mut edge_line, ": ");
            push_str(&mut edge_line, edge_kind(e.kind));
            let ghost before = lines@;
            lines.push(edge_line);
            assert(texts(lines@) =~= texts(before).push(edge_line@));
            self.render_tree_node(e.to, &child_ind, Ghost(depth + 2), Ghost(inner), stack, lines, options);
            assert(kid_edges.take(k + 1).drop_last() =~= kid_edges.take(k as int));
            assert(kid_edges.take(k + 1).last() == *e);
            assert(texts(lines@) =~= head + edge_lines(self.nodes@, self.edges@, options.compact, options.show_sources, kid_edges.take(k + 1), depth, inner));
            k += 1;
        }
        assert(kid_edges.take(kids.len() as int) =~= kid_edges);
        stack.pop();
        assert(stack@ =~= base);
        assert(texts(lines@) =~= start + tree_lines(self.nodes@, self.edges@, options.compact, options.show_sources, node_id, depth, path));
    }
}

proof fn lemma_key_target_prefix(nodes: Seq<DefinitionNode>, key: Seq<char>, i: int)
    requires
        0 < i <= nodes.len(),
        key_target(nodes.take(i - 1), key) is None,
        nodes[i - 1].kind != DefinitionNodeKind::Cycle,
        nodes[i - 1].metadata.spec_get("definition_key"@) == Some(key),
    ensures
        key_target(nodes, key) == Some(nodes[i - 1].id),
    decreases nodes.len() - i,
{
    if i == nodes.len() {
        assert(nodes.drop_last() =~= nodes.take(i - 1));
    } else {
        assert(nodes.drop_last().take(i - 1) =~= nodes.take(i - 1));
        lemma_key_target_prefix(nodes.drop_last(), key, i);
    }
}


/// The breadth-first depth of the deepest node reachable from the roots.
pub open spec fn bfs_max_depth(g: DefinitionGraph) -> nat {
    choose|d: nat| is_bfs_depth(edge_arcs(g.edges@, false), id_values(tree_roots(g)).to_set(), d)
}

/// The statistics line of the tree text.
pub open spec fn stats_line_spec(g: DefinitionGraph) -> Seq<char> {
    let nodes = g.nodes@;
    "nodes="@ + decimal(nodes.len()) + " edges="@ + decimal(g.edges@.len()) + " projections="@ + decimal(
        count_nodes(nodes, is_kind(DefinitionNodeKind::Projection)),
    ) + " impl_branches="@ + decimal(count_nodes(nodes, is_kind(DefinitionNodeKind::ImplBranch))) + " where_predicates="@
        + decimal(count_nodes(nodes, is_kind(DefinitionNodeKind::WherePredicate))) + " cycles="@ + decimal(
        count_nodes(nodes, |n: DefinitionNode| is_true_cycle(n)),
    ) + " repeated_nodes="@ + decimal(count_nodes(nodes, |n: DefinitionNode| is_repeat(n))) + " external_leaves="@
        + decimal(count_nodes(nodes, is_kind(DefinitionNodeKind::ExternalLeaf))) + " max_depth_leaves="@ + decimal(
        count_nodes(nodes, |n: DefinitionNode| is_depth_leaf(n)),
    ) + " max_depth="@ + decimal(bfs_max_depth(g))
}

/// The lines of the trees below each of `roots`, one after another.
pub open spec fn root_lines(
    nodes: Seq<DefinitionNode>,
    edges: Seq<DefinitionEdge>,
    compact: DefinitionCompactMode,
    show_sources: bool,
    roots: Seq<NodeId>,
) -> Seq<Seq<char>>
    decreases roots.len(),
{
    if roots.len() == 0 {
        Seq::empty()
    } else {
        root_lines(nodes, edges, compact, show_sources, roots.drop_last()) + tree_lines(
            nodes,
            edges,
            compact,
            show_sources,
            roots.last(),
            0,
            Set::empty(),
        )
    }
}

/// The tree text of a graph: a header naming the view, the statistics line, then the tree below
/// each root; an empty graph has a one-line text of its own.
pub open spec fn tree_text_spec(g: DefinitionGraph, compact: DefinitionCompactMode, show_sources: bool) -> Seq<char> {
    if g.nodes@.len() == 0 {
        "definition_tree: empty"@
    } else {
        join_seq(
            seq!["view_kind=definition_tree"@, stats_line_spec(g)] + root_lines(
                g.nodes@,
                g.edges@,
                compact,
                show_sources,
                tree_roots(g),
            ),
            "\n"@,
        )
    }
}

fn push_stat(out: &mut String, key: &str, value: usize)
    ensures
        final(out)@ == old(out)@ + key@ + decimal(value as nat),
{
    push_str(out, key);
    push_usize(out, value);
}

impl DefinitionGraph {
    fn stats_line(&self) -> (r: String)
        ensures
            r@ == stats_line_spec(*self),
    {
        let s = self.stats();
        proof {
            let d = bfs_max_depth(*self);
            crate::reach::lemma_bfs_depth_unique(
                edge_arcs(self.edges@, false),
                id_values(tree_roots(*self)).to_set(),
                d,
                s.max_depth as nat,
            );
        }
        let mut out = String::new();
        push_stat(&mut out, "nodes=", s.node_count);
        push_stat(&mut out, " edges=", s.edge_count);
        push_stat(&mut out, " projections=", s.projection_count);
        push_stat(&mut out, " impl_branches=", s.impl_branch_count);
        push_stat(&mut out, " where_predicates=", s.where_predicate_count);
        push_stat(&mut out, " cycles=", s.cycle_count);
        push_stat(&mut out, " repeated_nodes=", s.repeated_nodes);
        push_stat(&mut out, " external_leaves=", s.external_leaf_count);
        push_stat(&mut out, " max_depth_leaves=", s.max_depth_leaves);
        push_stat(&mut out, " max_depth=", s.max_depth);
        assert(out@ =~= stats_line_spec(*self));
        out
    }

    fn render_tree_text(&self, options: &DefinitionRenderOptions) -> (r: String)
        ensures
            r@ == tree_text_spec(*self, options.compact, options.show_sources),
    {
        if self.nodes.len() == 0 {
            return copy_str("definition_tree: empty");
        }
        let mut lines: Vec<String> = Vec::new();
        lines.push(copy_str("view_kind=definition_tree"));
        lines.push(self.stats_line());
        let ghost head = texts(lines@);
        assert(head =~= seq!["view_kind=definition_tree"@, stats_line_spec(*self)]);
        let roots = root_list(self);
        let mut stack: Vec<NodeId> = Vec::new();
        let ind = String::new();
        let mut k: usize = 0;
        assert(roots@.take(0) =~= Seq::<NodeId>::empty());
        assert(texts(lines@) =~= head + root_lines(self.nodes@, self.edges@, options.compact, options.show_sources, roots@.take(0)));
        while k < roots.len()
            invariant
                k <= roots.len(),
                roots@ == tree_roots(*self),
                stack@ == Seq::<NodeId>::empty(),
                ind@ == indent(0),
                texts(lines@) == head + root_lines(self.nodes@, self.edges@, options.compact, options.show_sources, roots@.take(k as int)),
            decreases roots.len() - k,
        {
            assert(stack@.to_set() =~= Set::<NodeId>::empty());
            self.render_tree_node(roots[k], &ind, Ghost(0), Ghost(Set::empty()), &mut stack, &mut lines, options);
            assert(roots@.take(k + 1).drop_last() =~= roots@.take(k as int));
            assert(roots@.take(k + 1).last() == roots@[k as int]);
            assert(texts(lines@) =~= head + root_lines(self.nodes@, self.edges@, options.compact, options.show_sources, roots@.take(k + 1)));
            k += 1;
        }
        assert(roots@.take(roots.len() as int) =~= roots@);
        join(&lines, "\n")
    }

    /// The tree text with the default options: see [`tree_text_spec`].
    pub fn to_tree_text(&self) -> (r: String)
        ensures
            r@ == tree_text_spec(*self, DefinitionCompactMode::Off, true),
    {
        if self.nodes.len() == 0 {
            return copy_str("definition_tree: empty");
        }
        self.render_tree_text(&DefinitionRenderOptions::default())
    }
}


// ---------------------------------------------------------------------------
// Views: rerooting and focusing
// ---------------------------------------------------------------------------

/// A node's texts mention `needle`: its label, path, source, or a metadata key or value.
pub open spec fn node_mentions(n: DefNodeView, needle: Seq<char>) -> bool {
    ||| seq_contains(n.label, needle)
    ||| (match n.def_path {
        Some(p) => seq_contains(p, needle),
        None => false,
    })
    ||| (match n.source {
        Some(p) => seq_contains(p, needle),
        None => false,
    })
    ||| exists|k: int|
        0 <= k < n.metadata.len() && (seq_contains((#[trigger] n.metadata[k]).0, needle) || seq_contains(
            n.metadata[k].1,
            needle,
        ))
}

/// A node matches the focus when one of the non-empty focus texts is mentioned by it.
pub open spec fn focus_matches(n: DefNodeView, focus: Seq<Seq<char>>) -> bool {
    exists|j: int| 0 <= j < focus.len() && focus[j].len() > 0 && node_mentions(n, #[trigger] focus[j])
}

/// The identifiers reachable from `start` along `arcs`.
pub open spec fn reach_from(arcs: Seq<(u64, u64)>, start: Set<u64>) -> Set<u64> {
    choose|r: Set<u64>| is_reach_set(arcs, start, r)
}

/// The roots a view starts from: the requested node, or the graph's tree roots.
pub open spec fn view_start(g: DefinitionGraph, root_node: Option<NodeId>) -> Seq<NodeId> {
    match root_node {
        Some(id) => seq![id],
        None => tree_roots(g),
    }
}

/// The identifiers a view keeps: those reachable from its start; with a focus, only the
/// ancestors and descendants of the reachable nodes that match the focus.
pub open spec fn included_spec(g: DefinitionGraph, focus: Seq<Seq<char>>, start: Seq<NodeId>) -> Set<u64> {
    let fwd = edge_arcs(g.edges@, false);
    let bwd = edge_arcs(g.edges@, true);
    let reach = reach_from(fwd, id_values(start).to_set());
    if focus.len() == 0 {
        reach
    } else {
        Set::new(
            |x: u64|
                exists|i: int|
                    0 <= i < g.nodes@.len() && reach.contains(#[trigger] g.nodes@[i].id.0) && focus_matches(g.nodes@[i]@, focus)
                        && (reach_from(bwd, set![g.nodes@[i].id.0]).contains(x) || reach_from(fwd, set![g.nodes@[i].id.0]).contains(x)),
        )
    }
}

/// The roots of a view: the kept start nodes and the kept nodes no kept edge ends at, in
/// increasing order without repetition.
pub open spec fn view_roots_ok(out: Seq<NodeId>, start: Seq<NodeId>, inc: Set<u64>, v: DefinitionGraph) -> bool {
    &&& forall|i: int, j: int| 0 <= i < j < out.len() ==> out[i].0 < out[j].0
    &&& forall|x: NodeId|
        out.contains(x) <==> ((start.contains(x) && inc.contains(x.0)) || (node_id_set(v.nodes@).contains(x)
            && !is_edge_target(v.edges@, x)))
}

/// The message of a request for a node the graph does not have.
pub open spec fn missing_node_message(id: NodeId) -> Seq<char> {
    "definition node "@ + decimal(id.0 as nat) + " does not exist"@
}

/// What `view` returns. An empty graph gives an empty view. A requested root that is not a node
/// is refused. Otherwise the view keeps the included nodes, sorted by identifier, and the edges
/// between included nodes, sorted by source, target and label (both stable), with its roots as
/// [`view_roots_ok`] says.
pub open spec fn view_ok(g: DefinitionGraph, focus: Seq<Seq<char>>, root_node: Option<NodeId>, r: Result<DefinitionGraph, ToolingError>) -> bool {
    if g.nodes@.len() == 0 {
        r matches Ok(v) && v.roots@.len() == 0 && v.nodes@.len() == 0 && v.edges@.len() == 0
    } else if root_node is Some && !node_id_set(g.nodes@).contains(root_node->0) {
        r matches Err(ToolingError::Parse(m)) && m@ == missing_node_message(root_node->0)
    } else {
        r matches Ok(v) && {
            let start = view_start(g, root_node);
            let inc = included_spec(g, focus, start);
            &&& stable_sorted_nodes(
                node_views(v.nodes@),
                node_views(g.nodes@).filter(|n: DefNodeView| inc.contains(n.id.0)),
            )
            &&& stable_sorted_edges(
                edge_views(v.edges@),
                edge_views(g.edges@).filter(|e: DefEdgeView| inc.contains(e.from.0) && inc.contains(e.to.0)),
            )
            &&& view_roots_ok(v.roots@, start, inc, v)
        }
    }
}

fn node_mentions_exec(n: &DefinitionNode, needle: &str) -> (b: bool)
    ensures
        b == node_mentions(n@, needle@),
{
    if str_contains(n.label.as_str(), needle) {
        return true;
    }
    if let Some(p) = &n.def_path {
        if str_contains(p.as_str(), needle) {
            return true;
        }
    }
    if let Some(p) = &n.source {
        if str_contains(p.as_str(), needle) {
            return true;
        }
    }
    let mut k: usize = 0;
    while k < n.metadata.len()
        invariant
            k <= n.metadata@.len(),
            forall|q: int|
                0 <= q < k ==> !(seq_contains((#[trigger] n.metadata@[q]).0, needle@) || seq_contains(
                    n.metadata@[q].1,
                    needle@,
                )),
        decreases n.metadata@.len() - k,
    {
        if str_contains(n.metadata.key_at(k).as_str(), needle) || str_contains(n.metadata.value_at(k).as_str(), needle) {
            assert(n@.metadata[k as int] == n.metadata@[k as int]);
            return true;
        }
        k += 1;
    }
    assert(!node_mentions(n@, needle@)) by {
        if exists|q: int|
            0 <= q < n@.metadata.len() && (seq_contains((#[trigger] n@.metadata[q]).0, needle@) || seq_contains(
                n@.metadata[q].1,
                needle@,
            )) {
            let q = choose|q: int|
                0 <= q < n@.metadata.len() && (seq_contains((#[trigger] n@.metadata[q]).0, needle@) || seq_contains(
                    n@.metadata[q].1,
                    needle@,
                ));
            assert(n.metadata@[q] == n@.metadata[q]);
        }
    }
    false
}

fn node_matches_focus(n: &DefinitionNode, focus: &Vec<String>) -> (b: bool)
    ensures
        b == focus_matches(n@, texts(focus@)),
{
    let mut j: usize = 0;
    while j < focus.len()
        invariant
            j <= focus.len(),
            forall|q: int| 0 <= q < j ==> !(focus@[q]@.len() > 0 && node_mentions(n@, #[trigger] focus@[q]@)),
        decreases focus.len() - j,
    {
        let needle = focus[j].as_str();
        let nv = str_chars(needle);
        if nv.len() > 0 && node_mentions_exec(n, needle) {
            assert(texts(focus@)[j as int] == focus@[j as int]@);
            return true;
        }
        j += 1;
    }
    assert(!focus_matches(n@, texts(focus@))) by {
        if focus_matches(n@, texts(focus@)) {
            let q = choose|q: int| 0 <= q < texts(focus@).len() && texts(focus@)[q].len() > 0 && node_mentions(n@, #[trigger] texts(focus@)[q]);
            assert(texts(focus@)[q] == focus@[q]@);
        }
    }
    false
}


fn reach_vec(arcs: &Vec<(u64, u64)>, start: &Vec<u64>) -> (r: Vec<u64>)
    ensures
        r@.to_set() == reach_from(arcs@, start@.to_set()),
{
    let (_, seen) = bfs(arcs, start);
    proof {
        let c = reach_from(arcs@, start@.to_set());
        assert(is_reach_set(arcs@, start@.to_set(), c));
        lemma_reach_set_unique(arcs@, start@.to_set(), c, seen@.to_set());
    }
    seen
}

fn included_ids(g: &DefinitionGraph, focus: &Vec<String>, start: &Vec<NodeId>) -> (r: Vec<u64>)
    ensures
        r@.to_set() == included_spec(*g, texts(focus@), start@),
{
    broadcast use vstd::seq_lib::group_seq_properties, vstd::set::group_set_axioms;

    let fwd = arcs_of(&g.edges, false);
    let bwd = arcs_of(&g.edges, true);
    let start_vals = values_of(start);
    let reach = reach_vec(&fwd, &start_vals);
    if focus.len() == 0 {
        return reach;
    }
    let ghost rs = reach@.to_set();
    let ghost f = texts(focus@);
    let ghost fwd_s = edge_arcs(g.edges@, false);
    let ghost bwd_s = edge_arcs(g.edges@, true);
    let mut inc: Vec<u64> = Vec::new();
    let mut i: usize = 0;
    while i < g.nodes.len()
        invariant
            i <= g.nodes.len(),
            fwd@ == fwd_s,
            bwd@ == bwd_s,
            rs == reach@.to_set(),
            rs == reach_from(fwd_s, id_values(start@).to_set()),
            f == texts(focus@),
            focus@.len() > 0,
            forall|x: u64|
                inc@.to_set().contains(x) <==> exists|q: int|
                    0 <= q < i && rs.contains(#[trigger] g.nodes@[q].id.0) && focus_matches(g.nodes@[q]@, f) && (reach_from(
                        bwd_s,
                        set![g.nodes@[q].id.0],
                    ).contains(x) || reach_from(fwd_s, set![g.nodes@[q].id.0]).contains(x)),
        decreases g.nodes.len() - i,
    {
        let n = &g.nodes[i];
        let ghost before = inc@;
        if contains_id(&reach, n.id.0) && node_matches_focus(n, focus) {
            let one = vec![n.id.0];
            assert(one@.to_set() =~= set![n.id.0]) by {
                assert(one@[0] == n.id.0);
            }
            let mut up = reach_vec(&bwd, &one);
            let mut down = reach_vec(&fwd, &one);
            let ghost up_s = up@;
            let ghost down_s = down@;
            inc.append(&mut up);
            inc.append(&mut down);
            assert(inc@ =~= before + up_s + down_s);
            assert forall|x: u64| inc@.to_set().contains(x) <==> exists|q: int|
                0 <= q < i + 1 && rs.contains(#[trigger] g.nodes@[q].id.0) && focus_matches(g.nodes@[q]@, f) && (reach_from(
                    bwd_s,
                    set![g.nodes@[q].id.0],
                ).contains(x) || reach_from(fwd_s, set![g.nodes@[q].id.0]).contains(x)) by {
                if inc@.to_set().contains(x) {
                    let k = choose|k: int| 0 <= k < inc@.len() && inc@[k] == x;
                    if k < before.len() {
                        assert(before[k] == x);
                        assert(before.to_set().contains(x));
                    } else if k < before.len() + up_s.len() {
                        assert(up_s[k - before.len()] == x);
                        assert(up_s.to_set().contains(x));
                    } else {
                        assert(down_s[k - before.len() - up_s.len()] == x);
                        assert(down_s.to_set().contains(x));
                    }
                }
                if exists|q: int|
                    0 <= q < i + 1 && rs.contains(#[trigger] g.nodes@[q].id.0) && focus_matches(g.nodes@[q]@, f) && (reach_from(
                        bwd_s,
                        set![g.nodes@[q].id.0],
                    ).contains(x) || reach_from(fwd_s, set![g.nodes@[q].id.0]).contains(x)) {
                    let q = choose|q: int|
                        0 <= q < i + 1 && rs.contains(#[trigger] g.nodes@[q].id.0) && focus_matches(g.nodes@[q]@, f) && (reach_from(
                            bwd_s,
                            set![g.nodes@[q].id.0],
                        ).contains(x) || reach_from(fwd_s, set![g.nodes@[q].id.0]).contains(x));
                    if q < i {
                        assert(before.to_set().contains(x));
                        let k = choose|k: int| 0 <= k < before.len() && before[k] == x;
                        assert(inc@[k] == x);
                    } else if up_s.to_set().contains(x) {
                        let k = choose|k: int| 0 <= k < up_s.len() && up_s[k] == x;
                        assert(inc@[before.len() + k] == x);
                    } else {
                        assert(down_s.to_set().contains(x));
                        let k = choose|k: int| 0 <= k < down_s.len() && down_s[k] == x;
                        assert(inc@[before.len() + up_s.len() + k] == x);
                    }
                }
            }
        } else {
            assert forall|x: u64| inc@.to_set().contains(x) <==> exists|q: int|
                0 <= q < i + 1 && rs.contains(#[trigger] g.nodes@[q].id.0) && focus_matches(g.nodes@[q]@, f) && (reach_from(
                    bwd_s,
                    set![g.nodes@[q].id.0],
                ).contains(x) || reach_from(fwd_s, set![g.nodes@[q].id.0]).contains(x)) by {
                if exists|q: int|
                    0 <= q < i + 1 && rs.contains(#[trigger] g.nodes@[q].id.0) && focus_matches(g.nodes@[q]@, f) && (reach_from(
                        bwd_s,
                        set![g.nodes@[q].id.0],
                    ).contains(x) || reach_from(fwd_s, set![g.nodes@[q].id.0]).contains(x)) {
                    let q = choose|q: int|
                        0 <= q < i + 1 && rs.contains(#[trigger] g.nodes@[q].id.0) && focus_matches(g.nodes@[q]@, f) && (reach_from(
                            bwd_s,
                            set![g.nodes@[q].id.0],
                        ).contains(x) || reach_from(fwd_s, set![g.nodes@[q].id.0]).contains(x));
                    if q == i {
                        assert(reach@.to_set().contains(n.id.0));
                    }
                }
            }
        }
        i += 1;
    }
    assert(inc@.to_set() =~= included_spec(*g, f, start@));
    inc
}


fn kept_nodes(nodes: &Vec<DefinitionNode>, inc: &Vec<u64>) -> (r: Vec<DefinitionNode>)
    ensures
        node_views(r@) == node_views(nodes@).filter(|n: DefNodeView| inc@.to_set().contains(n.id.0)),
{
    let ghost p = |n: DefNodeView| inc@.to_set().contains(n.id.0);
    let mut r: Vec<DefinitionNode> = Vec::new();
    let mut i: usize = 0;
    reveal(Seq::filter);
    assert(node_views(nodes@).take(0) =~= Seq::<DefNodeView>::empty());
    assert(node_views(r@) =~= Seq::<DefNodeView>::empty());
    while i < nodes.len()
        invariant
            i <= nodes.len(),
            p == (|n: DefNodeView| inc@.to_set().contains(n.id.0)),
            node_views(r@) == node_views(nodes@).take(i as int).filter(p),
        decreases nodes.len() - i,
    {
        reveal(Seq::filter);
        let ghost all = node_views(nodes@);
        assert(all.take(i + 1).drop_last() =~= all.take(i as int));
        assert(all.take(i + 1).last() == nodes@[i as int]@);
        if contains_id(inc, nodes[i].id.0) {
            let ghost before = r@;
            r.push(nodes[i].duplicate());
            assert(node_views(r@) =~= node_views(before).push(nodes@[i as int]@));
        }
        i += 1;
    }
    assert(node_views(nodes@).take(nodes.len() as int) =~= node_views(nodes@));
    r
}

fn kept_edges(edges: &Vec<DefinitionEdge>, inc: &Vec<u64>) -> (r: Vec<DefinitionEdge>)
    ensures
        edge_views(r@) == edge_views(edges@).filter(|e: DefEdgeView| inc@.to_set().contains(e.from.0) && inc@.to_set().contains(e.to.0)),
{
    let ghost p = |e: DefEdgeView| inc@.to_set().contains(e.from.0) && inc@.to_set().contains(e.to.0);
    let mut r: Vec<DefinitionEdge> = Vec::new();
    let mut i: usize = 0;
    reveal(Seq::filter);
    assert(edge_views(edges@).take(0) =~= Seq::<DefEdgeView>::empty());
    assert(edge_views(r@) =~= Seq::<DefEdgeView>::empty());
    while i < edges.len()
        invariant
            i <= edges.len(),
            p == (|e: DefEdgeView| inc@.to_set().contains(e.from.0) && inc@.to_set().contains(e.to.0)),
            edge_views(r@) == edge_views(edges@).take(i as int).filter(p),
        decreases edges.len() - i,
    {
        reveal(Seq::filter);
        let ghost all = edge_views(edges@);
        assert(all.take(i + 1).drop_last() =~= all.take(i as int));
        assert(all.take(i + 1).last() == edges@[i as int]@);
        if contains_id(inc, edges[i].from.0) && contains_id(inc, edges[i].to.0) {
            let ghost before = r@;
            r.push(edges[i].duplicate());
            assert(edge_views(r@) =~= edge_views(before).push(edges@[i as int]@));
        }
        i += 1;
    }
    assert(edge_views(edges@).take(edges.len() as int) =~= edge_views(edges@));
    r
}

/// `v` in increasing order without repetition.
fn sorted_unique_ids(v: &Vec<NodeId>) -> (r: Vec<NodeId>)
    ensures
        forall|i: int, j: int| 0 <= i < j < r@.len() ==> r@[i].0 < r@[j].0,
        forall|x: NodeId| r@.contains(x) <==> v@.contains(x),
{
    let mut r: Vec<NodeId> = Vec::new();
    let mut i: usize = 0;
    while i < v.len()
        invariant
            i <= v.len(),
            forall|a: int, b: int| 0 <= a < b < r@.len() ==> r@[a].0 < r@[b].0,
            forall|x: NodeId| r@.contains(x) <==> v@.take(i as int).contains(x),
        decreases v.len() - i,
    {
        let x = v[i];
        let mut p: usize = 0;
        while p < r.len() && r[p].0 < x.0
            invariant
                p <= r.len(),
                forall|k: int| 0 <= k < p ==> r@[k].0 < x.0,
            decreases r.len() - p,
        {
            p += 1;
        }
        let ghost before = r@;
        let ghost now = v@.take(i + 1);
        let ghost prev = v@.take(i as int);
        assert(now =~= prev.push(x));
        if p < r.len() && r[p].0 == x.0 {
            assert(r@[p as int] == x);
            assert forall|y: NodeId| r@.contains(y) <==> now.contains(y) by {
                if y == x {
                    assert(r@[p as int] == y);
                }
                if now.contains(y) && y != x {
                    let k = choose|k: int| 0 <= k < now.len() && now[k] == y;
                    assert(prev[k] == y);
                }
            }
        } else {
            r.insert(p, x);
            assert(r@ =~= before.take(p as int) + seq![x] + before.skip(p as int));
            assert forall|a: int, b: int| 0 <= a < b < r@.len() implies r@[a].0 < r@[b].0 by {
                if a < p && b == p {
                } else if a == p && b > p {
                    assert(r@[b] == before[b - 1]);
                    assert(before[p as int].0 >= x.0);
                    if b - 1 > p {
                        assert(before[p as int].0 < before[b - 1].0);
                    }
                } else if a < p && b > p {
                    assert(r@[b] == before[b - 1]);
                } else if a > p {
                    assert(r@[a] == before[a - 1]);
                    assert(r@[b] == before[b - 1]);
                }
            }
            assert(r@.len() == before.len() + 1);
            assert forall|y: NodeId| r@.contains(y) implies now.contains(y) by {
                let k = choose|k: int| 0 <= k < r@.len() && r@[k] == y;
                if k < p {
                    assert(before[k] == y);
                    assert(before.contains(y));
                    assert(prev.contains(y));
                    let j = choose|j: int| 0 <= j < prev.len() && prev[j] == y;
                    assert(now[j] == y);
                } else if k > p {
                    assert(before[k - 1] == y);
                    assert(before.contains(y));
                    assert(prev.contains(y));
                    let j = choose|j: int| 0 <= j < prev.len() && prev[j] == y;
                    assert(now[j] == y);
                } else {
                    assert(now[i as int] == y);
                }
            }
            assert forall|y: NodeId| now.contains(y) implies r@.contains(y) by {
                if y == x {
                    assert(r@[p as int] == y);
                } else {
                    let k = choose|k: int| 0 <= k < now.len() && now[k] == y;
                    assert(prev[k] == y);
                    assert(prev.contains(y));
                    assert(before.contains(y));
                    let m = choose|m: int| 0 <= m < before.len() && before[m] == y;
                    if m < p {
                        assert(r@[m] == y);
                    } else {
                        assert(r@[m + 1] == y);
                    }
                }
            }
        }
        i += 1;
    }
    assert(v@.take(v.len() as int) =~= v@);
    r
}


proof fn lemma_push_contains<A>(s: Seq<A>, x: A)
    ensures
        forall|y: A| #[trigger] s.push(x).contains(y) <==> (s.contains(y) || y == x),
{
    assert forall|y: A| #[trigger] s.push(x).contains(y) <==> (s.contains(y) || y == x) by {
        if s.push(x).contains(y) {
            let k = choose|k: int| 0 <= k < s.push(x).len() && s.push(x)[k] == y;
            if k < s.len() {
                assert(s[k] == y);
            }
        }
        if s.contains(y) {
            let k = choose|k: int| 0 <= k < s.len() && s[k] == y;
            assert(s.push(x)[k] == y);
        }
        if y == x {
            assert(s.push(x)[s.len() as int] == y);
        }
    }
}

/// A node matches a focus text when its label, its path, its source, or one of its metadata
/// keys or values contains that text, and only then; a focus matches a node when one of its
/// non-empty texts does.
pub proof fn focus_looks_at_every_text(n: DefNodeView, needle: Seq<char>, focus: Seq<Seq<char>>, j: int)
    ensures
        seq_contains(n.label, needle) ==> node_mentions(n, needle),
        (n.def_path matches Some(p) && seq_contains(p, needle)) ==> node_mentions(n, needle),
        (n.source matches Some(p) && seq_contains(p, needle)) ==> node_mentions(n, needle),
        (exists|k: int| 0 <= k < n.metadata.len() && (seq_contains(n.metadata[k].0, needle) || seq_contains(
            n.metadata[k].1,
            needle,
        ))) ==> node_mentions(n, needle),
        node_mentions(n, needle) ==> seq_contains(n.label, needle) || (n.def_path matches Some(p) && seq_contains(p, needle))
            || (n.source matches Some(p) && seq_contains(p, needle)) || (exists|k: int|
            0 <= k < n.metadata.len() && (seq_contains(n.metadata[k].0, needle) || seq_contains(n.metadata[k].1, needle))),
        (0 <= j < focus.len() && focus[j].len() > 0 && node_mentions(n, focus[j])) ==> focus_matches(n, focus),
        focus_matches(n, focus) ==> exists|i: int| 0 <= i < focus.len() && focus[i].len() > 0 && node_mentions(n, focus[i]),
{
    if exists|k: int| 0 <= k < n.metadata.len() && (seq_contains(n.metadata[k].0, needle) || seq_contains(
        n.metadata[k].1,
        needle,
    )) {
        let k = choose|k: int| 0 <= k < n.metadata.len() && (seq_contains(n.metadata[k].0, needle) || seq_contains(
            n.metadata[k].1,
            needle,
        ));
        assert(seq_contains((n.metadata[k]).0, needle) || seq_contains(n.metadata[k].1, needle));
    }
}

/// With a focus, a reachable node that matches it is kept.
pub proof fn focused_nodes_are_kept(g: DefinitionGraph, focus: Seq<Seq<char>>, start: Seq<NodeId>, i: int)
    requires
        0 <= i < g.nodes@.len(),
        focus.len() > 0,
        reach_from(edge_arcs(g.edges@, false), id_values(start).to_set()).contains(g.nodes@[i].id.0),
        focus_matches(g.nodes@[i]@, focus),
    ensures
        included_spec(g, focus, start).contains(g.nodes@[i].id.0),
{
    broadcast use vstd::set::group_set_axioms;

    let x = g.nodes@[i].id.0;
    let fwd = edge_arcs(g.edges@, false);
    crate::reach::lemma_reach_exists(fwd, set![x]);
    crate::reach::lemma_reach_closed(fwd, set![x], reach_from(fwd, set![x]));
    assert(reach_from(fwd, set![x]).contains(x));
}

/// A view shows only what its graph has: each node and each edge of a view is a node or an edge
/// of the graph.
pub proof fn view_shows_only_graph_items(
    g: DefinitionGraph,
    focus: Seq<Seq<char>>,
    root_node: Option<NodeId>,
    r: Result<DefinitionGraph, ToolingError>,
)
    requires
        view_ok(g, focus, root_node, r),
    ensures
        r matches Ok(v) ==> {
            &&& forall|i: int| 0 <= i < v.nodes@.len() ==> node_views(g.nodes@).contains(#[trigger] v.nodes@[i]@)
            &&& forall|i: int| 0 <= i < v.edges@.len() ==> edge_views(g.edges@).contains(#[trigger] v.edges@[i]@)
        },
{
    if let Ok(v) = r {
        if g.nodes@.len() > 0 {
            let start = view_start(g, root_node);
            let inc = included_spec(g, focus, start);
            let pn = |n: DefNodeView| inc.contains(n.id.0);
            let pe = |e: DefEdgeView| inc.contains(e.from.0) && inc.contains(e.to.0);
            assert forall|i: int| 0 <= i < v.nodes@.len() implies node_views(g.nodes@).contains(
                #[trigger] v.nodes@[i]@,
            ) by {
                crate::definition_order::lemma_sorted_nodes_from(node_views(v.nodes@), node_views(g.nodes@).filter(pn), i);
                node_views(g.nodes@).lemma_filter_contains_rev(pn, node_views(v.nodes@)[i]);
            }
            assert forall|i: int| 0 <= i < v.edges@.len() implies edge_views(g.edges@).contains(
                #[trigger] v.edges@[i]@,
            ) by {
                crate::definition_order::lemma_sorted_edges_from(edge_views(v.edges@), edge_views(g.edges@).filter(pe), i);
                edge_views(g.edges@).lemma_filter_contains_rev(pe, edge_views(v.edges@)[i]);
            }
        }
    }
}

/// Two lists of identifiers, each strictly increasing, that hold the same identifiers are the
/// same list.
proof fn lemma_increasing_ids_unique(a: Seq<NodeId>, b: Seq<NodeId>)
    requires
        forall|i: int, j: int| 0 <= i < j < a.len() ==> a[i].0 < a[j].0,
        forall|i: int, j: int| 0 <= i < j < b.len() ==> b[i].0 < b[j].0,
        forall|x: NodeId| a.contains(x) <==> b.contains(x),
    ensures
        a == b,
    decreases a.len() + b.len(),
{
    if a.len() == 0 || b.len() == 0 {
        if a.len() > 0 {
            assert(a.contains(a[0]));
        }
        if b.len() > 0 {
            assert(b.contains(b[0]));
        }
        assert(a =~= b);
        return;
    }
    let x = a.last();
    let y = b.last();
    assert(a.contains(x));
    assert(b.contains(y));
    let ka = choose|k: int| 0 <= k < a.len() && a[k] == y;
    let kb = choose|k: int| 0 <= k < b.len() && b[k] == x;
    assert(y.0 <= x.0) by {
        if ka < a.len() - 1 {
            assert(a[ka].0 < a[a.len() - 1].0);
        }
    }
    assert(x.0 <= y.0) by {
        if kb < b.len() - 1 {
            assert(b[kb].0 < b[b.len() - 1].0);
        }
    }
    assert(x == y);
    let a1 = a.drop_last();
    let b1 = b.drop_last();
    assert forall|z: NodeId| a1.contains(z) <==> b1.contains(z) by {
        if a1.contains(z) {
            let k = choose|k: int| 0 <= k < a1.len() && a1[k] == z;
            assert(a[k] == z);
            assert(z.0 < x.0);
            assert(b.contains(z));
            let m = choose|m: int| 0 <= m < b.len() && b[m] == z;
            assert(m != b.len() - 1);
            assert(b1[m] == z);
        }
        if b1.contains(z) {
            let k = choose|k: int| 0 <= k < b1.len() && b1[k] == z;
            assert(b[k] == z);
            assert(z.0 < y.0);
            assert(a.contains(z));
            let m = choose|m: int| 0 <= m < a.len() && a[m] == z;
            assert(m != a.len() - 1);
            assert(a1[m] == z);
        }
    }
    lemma_increasing_ids_unique(a1, b1);
    assert(a =~= a1.push(x));
    assert(b =~= b1.push(y));
}

/// `view` has one result: two results that it may give hold the same roots, nodes and edges,
/// or are both refusals with the same message.
pub proof fn view_has_one_result(
    g: DefinitionGraph,
    focus: Seq<Seq<char>>,
    root_node: Option<NodeId>,
    r1: Result<DefinitionGraph, ToolingError>,
    r2: Result<DefinitionGraph, ToolingError>,
)
    requires
        view_ok(g, focus, root_node, r1),
        view_ok(g, focus, root_node, r2),
    ensures
        r1 is Ok <==> r2 is Ok,
        r1 matches Ok(v1) ==> r2 matches Ok(v2) && v1.roots@ == v2.roots@ && node_views(v1.nodes@) == node_views(
            v2.nodes@,
        ) && edge_views(v1.edges@) == edge_views(v2.edges@),
        r1 matches Err(e1) ==> r2 matches Err(e2) && crate::error::error_text(e1) == crate::error::error_text(e2),
{
    if g.nodes@.len() == 0 {
        if let (Ok(v1), Ok(v2)) = (r1, r2) {
            assert(v1.roots@ =~= v2.roots@);
            assert(node_views(v1.nodes@) =~= node_views(v2.nodes@));
            assert(edge_views(v1.edges@) =~= edge_views(v2.edges@));
        }
    } else if root_node is Some && !node_id_set(g.nodes@).contains(root_node->0) {
    } else {
        let start = view_start(g, root_node);
        let inc = included_spec(g, focus, start);
        if let (Ok(v1), Ok(v2)) = (r1, r2) {
            let pn = |n: DefNodeView| inc.contains(n.id.0);
            let pe = |e: DefEdgeView| inc.contains(e.from.0) && inc.contains(e.to.0);
            let sn = node_views(g.nodes@).filter(pn);
            let se = edge_views(g.edges@).filter(pe);
            crate::definition_order::lemma_sorted_nodes_unique(node_views(v1.nodes@), node_views(v2.nodes@));
            crate::definition_order::lemma_sorted_edges_unique(edge_views(v1.edges@), edge_views(v2.edges@));
            let n1 = node_views(v1.nodes@);
            let n2 = node_views(v2.nodes@);
            assert(v1.nodes@.map_values(|n: DefinitionNode| n.id) =~= v2.nodes@.map_values(|n: DefinitionNode| n.id)) by {
                assert forall|i: int| 0 <= i < v1.nodes@.len() implies v1.nodes@[i].id == v2.nodes@[i].id by {
                    assert(n1[i] == n2[i]);
                }
            }
            assert(node_id_set(v1.nodes@) == node_id_set(v2.nodes@));
            assert forall|x: NodeId| is_edge_target(v1.edges@, x) <==> is_edge_target(v2.edges@, x) by {
                let e1 = edge_views(v1.edges@);
                let e2 = edge_views(v2.edges@);
                if is_edge_target(v1.edges@, x) {
                    let i = choose|i: int| 0 <= i < v1.edges@.len() && (#[trigger] v1.edges@[i]).to == x;
                    assert(e1[i] == e2[i]);
                    assert(v2.edges@[i].to == x);
                }
                if is_edge_target(v2.edges@, x) {
                    let i = choose|i: int| 0 <= i < v2.edges@.len() && (#[trigger] v2.edges@[i]).to == x;
                    assert(e1[i] == e2[i]);
                    assert(v1.edges@[i].to == x);
                }
            }
            assert forall|x: NodeId| v1.roots@.contains(x) <==> v2.roots@.contains(x) by {
                assert(v1.roots@.contains(x) <==> ((start.contains(x) && inc.contains(x.0)) || (node_id_set(v1.nodes@).contains(x)
                    && !is_edge_target(v1.edges@, x))));
                assert(v2.roots@.contains(x) <==> ((start.contains(x) && inc.contains(x.0)) || (node_id_set(v2.nodes@).contains(x)
                    && !is_edge_target(v2.edges@, x))));
            }
            lemma_increasing_ids_unique(v1.roots@, v2.roots@);
        }
    }
}

/// `concat_map` of two sequences that `f` sends to the same texts, element by element.
proof fn lemma_concat_map_same<A>(a: Seq<A>, b: Seq<A>, f: spec_fn(A) -> Seq<char>)
    requires
        a.len() == b.len(),
        forall|i: int| 0 <= i < a.len() ==> f(a[i]) == f(b[i]),
    ensures
        concat_map(a, f) == concat_map(b, f),
    decreases a.len(),
{
    if a.len() > 0 {
        lemma_concat_map_same(a.drop_last(), b.drop_last(), f);
        assert(f(a.last()) == f(b.last()));
    }
}

/// The dot and Mermaid texts of a graph depend only on the views of its nodes and edges.
proof fn lemma_texts_follow_views(v1: DefinitionGraph, v2: DefinitionGraph)
    requires
        node_views(v1.nodes@) == node_views(v2.nodes@),
        edge_views(v1.edges@) == edge_views(v2.edges@),
    ensures
        dot_spec(v1) == dot_spec(v2),
        mermaid_spec(v1) == mermaid_spec(v2),
{
    let n1 = node_views(v1.nodes@);
    let n2 = node_views(v2.nodes@);
    let e1 = edge_views(v1.edges@);
    let e2 = edge_views(v2.edges@);
    assert(n1.len() == v1.nodes@.len() && n2.len() == v2.nodes@.len());
    assert(e1.len() == v1.edges@.len() && e2.len() == v2.edges@.len());
    assert(v1.nodes@.len() == v2.nodes@.len() && v1.edges@.len() == v2.edges@.len());
    assert forall|i: int| 0 <= i < v1.nodes@.len() implies dot_node_line(v1.nodes@[i]) == dot_node_line(v2.nodes@[i])
        && mermaid_node_line(v1.nodes@[i]) == mermaid_node_line(v2.nodes@[i]) by {
        assert(n1[i] == v1.nodes@[i]@);
        assert(n2[i] == v2.nodes@[i]@);
        assert(n1[i] == n2[i]);
    }
    assert forall|i: int| 0 <= i < v1.edges@.len() implies dot_edge_line(v1.edges@[i]) == dot_edge_line(v2.edges@[i])
        && mermaid_edge_line(v1.edges@[i]) == mermaid_edge_line(v2.edges@[i]) by {
        assert(e1[i] == v1.edges@[i]@);
        assert(e2[i] == v2.edges@[i]@);
        assert(e1[i] == e2[i]);
    }
    lemma_concat_map_same(v1.nodes@, v2.nodes@, |n: DefinitionNode| dot_node_line(n));
    lemma_concat_map_same(v1.edges@, v2.edges@, |e: DefinitionEdge| dot_edge_line(e));
    lemma_concat_map_same(v1.nodes@, v2.nodes@, |n: DefinitionNode| mermaid_node_line(n));
    lemma_concat_map_same(v1.edges@, v2.edges@, |e: DefinitionEdge| mermaid_edge_line(e));
}

/// What a filter keeps passes its test.
proof fn lemma_filter_member<A>(s: Seq<A>, p: spec_fn(A) -> bool, x: A)
    requires
        s.filter(p).contains(x),
    ensures
        p(x),
{
    let k = choose|k: int| 0 <= k < s.filter(p).len() && s.filter(p)[k] == x;
    s.lemma_filter_pred(p, k);
}

/// A filter that every element passes keeps the whole sequence.
proof fn lemma_filter_all<A>(s: Seq<A>, p: spec_fn(A) -> bool)
    requires
        forall|i: int| 0 <= i < s.len() ==> p(s[i]),
    ensures
        s.filter(p) == s,
    decreases s.len(),
{
    reveal(Seq::filter);
    if s.len() > 0 {
        lemma_filter_all(s.drop_last(), p);
        assert(s.drop_last().push(s.last()) =~= s);
    }
}

/// The inferred roots are node identifiers.
proof fn lemma_inferred_roots_are_nodes(nodes: Seq<DefinitionNode>, edges: Seq<DefinitionEdge>, x: NodeId)
    requires
        inferred_roots_spec(nodes, edges).contains(x),
    ensures
        node_id_set(nodes).contains(x),
    decreases nodes.len(),
{
    let d = nodes.drop_last();
    let rest = inferred_roots_spec(d, edges);
    if rest.contains(x) {
        lemma_inferred_roots_are_nodes(d, edges, x);
        let ids = d.map_values(|n: DefinitionNode| n.id);
        assert(ids.contains(x));
        let k = choose|k: int| 0 <= k < ids.len() && ids[k] == x;
        assert(nodes.map_values(|n: DefinitionNode| n.id)[k] == x);
    } else {
        assert(x == nodes.last().id) by {
            if !is_edge_target(edges, nodes.last().id) {
                let k = choose|k: int| 0 <= k < rest.push(nodes.last().id).len() && rest.push(nodes.last().id)[k] == x;
                if k < rest.len() {
                    assert(rest[k] == x);
                }
            }
        }
        assert(nodes.map_values(|n: DefinitionNode| n.id)[nodes.len() - 1] == x);
    }
}

/// Graphs with the same node and edge views have the same node identifiers and edge targets.
proof fn lemma_same_ids(v1: DefinitionGraph, v2: DefinitionGraph)
    requires
        node_views(v1.nodes@) == node_views(v2.nodes@),
        edge_views(v1.edges@) == edge_views(v2.edges@),
    ensures
        node_id_set(v1.nodes@) == node_id_set(v2.nodes@),
        forall|x: NodeId| is_edge_target(v1.edges@, x) <==> is_edge_target(v2.edges@, x),
{
    let n1 = node_views(v1.nodes@);
    let n2 = node_views(v2.nodes@);
    assert(n1.len() == v1.nodes@.len() && n2.len() == v2.nodes@.len());
    assert(edge_views(v1.edges@).len() == v1.edges@.len() && edge_views(v2.edges@).len() == v2.edges@.len());
    let m1 = v1.nodes@.map_values(|n: DefinitionNode| n.id);
    let m2 = v2.nodes@.map_values(|n: DefinitionNode| n.id);
    assert(m1 =~= m2) by {
        assert forall|i: int| 0 <= i < m1.len() implies m1[i] == m2[i] by {
            assert(n1[i] == v1.nodes@[i]@);
            assert(n2[i] == v2.nodes@[i]@);
            assert(n1[i] == n2[i]);
        }
    }
    assert forall|x: NodeId| is_edge_target(v1.edges@, x) <==> is_edge_target(v2.edges@, x) by {
        let e1 = edge_views(v1.edges@);
        let e2 = edge_views(v2.edges@);
        if is_edge_target(v1.edges@, x) {
            let i = choose|i: int| 0 <= i < v1.edges@.len() && (#[trigger] v1.edges@[i]).to == x;
            assert(e1[i] == e2[i]);
            assert(v2.edges@[i].to == x);
        }
        if is_edge_target(v2.edges@, x) {
            let i = choose|i: int| 0 <= i < v2.edges@.len() && (#[trigger] v2.edges@[i]).to == x;
            assert(e1[i] == e2[i]);
            assert(v1.edges@[i].to == x);
        }
    }
}

/// Viewing again, without a focus or a requested root, a view taken without either gives the
/// same view back, when every root the graph lists is one of its nodes.
pub proof fn viewing_a_view_again_keeps_it(
    g: DefinitionGraph,
    v: DefinitionGraph,
    r2: Result<DefinitionGraph, ToolingError>,
)
    requires
        forall|i: int| 0 <= i < g.roots@.len() ==> node_id_set(g.nodes@).contains(#[trigger] g.roots@[i]),
        view_ok(g, Seq::empty(), None, Ok(v)),
        view_ok(v, Seq::empty(), None, r2),
    ensures
        r2 matches Ok(w) && w.roots@ == v.roots@ && node_views(w.nodes@) == node_views(v.nodes@) && edge_views(
            w.edges@,
        ) == edge_views(v.edges@),
{
    broadcast use vstd::seq_lib::group_seq_properties, vstd::set::group_set_axioms, vstd::seq_lib::seq_to_set_is_finite;

    let focus = Seq::<Seq<char>>::empty();
    if g.nodes@.len() == 0 {
        if let Ok(w) = r2 {
            assert(w.roots@ =~= v.roots@);
            assert(node_views(w.nodes@) =~= node_views(v.nodes@));
            assert(edge_views(w.edges@) =~= edge_views(v.edges@));
        }
        return;
    }
    let start = view_start(g, None);
    let s0 = id_values(start).to_set();
    let fwd = edge_arcs(g.edges@, false);
    let r = included_spec(g, focus, start);
    crate::reach::lemma_reach_exists(fwd, s0);
    assert(r == reach_from(fwd, s0));
    assert(is_reach_set(fwd, s0, r));
    crate::reach::lemma_reach_closed(fwd, s0, r);
    let pn = |n: DefNodeView| r.contains(n.id.0);
    let pe = |e: DefEdgeView| r.contains(e.from.0) && r.contains(e.to.0);
    let nv = node_views(v.nodes@);
    let ev = edge_views(v.edges@);
    let ng = node_views(g.nodes@);
    let eg = edge_views(g.edges@);
    assert(stable_sorted_nodes(nv, ng.filter(pn)));
    assert(stable_sorted_edges(ev, eg.filter(pe)));
    assert(view_roots_ok(v.roots@, start, r, v));
    // Every node and edge end of the view lies in what the start reaches.
    assert forall|i: int| 0 <= i < nv.len() implies pn(#[trigger] nv[i]) by {
        crate::definition_order::lemma_sorted_nodes_from(nv, ng.filter(pn), i);
        lemma_filter_member(ng, pn, nv[i]);
    }
    assert forall|i: int| 0 <= i < ev.len() implies pe(#[trigger] ev[i]) by {
        crate::definition_order::lemma_sorted_edges_from(ev, eg.filter(pe), i);
        lemma_filter_member(eg, pe, ev[i]);
    }
    // The start is made of nodes, so each start identifier is a node of the view.
    assert forall|x: NodeId| #[trigger] start.contains(x) implies node_id_set(g.nodes@).contains(x) && r.contains(x.0) by {
        if g.roots@.len() == 0 {
            lemma_inferred_roots_are_nodes(g.nodes@, g.edges@, x);
        } else {
            let k = choose|k: int| 0 <= k < start.len() && start[k] == x;
            assert(g.roots@[k] == x);
        }
        let k = choose|k: int| 0 <= k < start.len() && start[k] == x;
        assert(id_values(start)[k] == x.0);
        assert(s0.contains(x.0));
    }
    assert forall|x: NodeId| #[trigger] start.contains(x) implies v.roots@.contains(x) by {
        assert(start.contains(x) && r.contains(x.0));
    }
    if nv.len() == 0 || start.len() == 0 {
        if start.len() > 0 {
            let x = start[0];
            assert(start.contains(x));
            assert(node_id_set(g.nodes@).contains(x));
            let ids = g.nodes@.map_values(|n: DefinitionNode| n.id);
            assert(ids.contains(x));
            let k = choose|k: int| 0 <= k < ids.len() && ids[k] == x;
            assert(ng[k].id == x);
            assert(ng.contains(ng[k]));
            ng.lemma_filter_contains(pn, k);
            crate::definition_order::lemma_sorted_nodes_keep(nv, ng.filter(pn), ng[k]);
            assert(false);
        }
        assert(id_values(start) =~= Seq::<u64>::empty());
        assert(s0 =~= Set::<u64>::empty());
        crate::reach::lemma_within_empty_start(fwd, r);
        assert(nv.len() == 0) by {
            if nv.len() > 0 {
                assert(pn(nv[0]));
            }
        }
        assert(ev.len() == 0) by {
            if ev.len() > 0 {
                assert(pe(ev[0]));
            }
        }
        assert(v.roots@.len() == 0) by {
            if v.roots@.len() > 0 {
                let x = v.roots@[0];
                assert(v.roots@.contains(x));
                if node_id_set(v.nodes@).contains(x) {
                    let ids = v.nodes@.map_values(|n: DefinitionNode| n.id);
                    assert(ids.contains(x));
                    let k = choose|k: int| 0 <= k < ids.len() && ids[k] == x;
                }
            }
        }
        assert(v.nodes@.len() == 0);
        if let Ok(w) = r2 {
            assert(w.roots@ =~= v.roots@);
            assert(node_views(w.nodes@) =~= node_views(v.nodes@));
            assert(edge_views(w.edges@) =~= edge_views(v.edges@));
        }
        return;
    }
    // The view has nodes and roots; viewing it again starts from its roots.
    assert(start.contains(start[0]));
    assert(v.roots@.contains(start[0]));
    assert(v.roots@.len() > 0);
    let start2 = view_start(v, None);
    assert(start2 == v.roots@);
    let s2 = id_values(start2).to_set();
    let arcs2 = edge_arcs(v.edges@, false);
    assert forall|x: u64| s0.contains(x) implies s2.contains(x) by {
        let k = choose|k: int| 0 <= k < id_values(start).len() && id_values(start)[k] == x;
        assert(start.contains(start[k]));
        assert(v.roots@.contains(start[k]));
        let m = choose|m: int| 0 <= m < v.roots@.len() && v.roots@[m] == start[k];
        assert(id_values(start2)[m] == x);
    }
    assert forall|x: u64| s2.contains(x) implies r.contains(x) by {
        let m = choose|m: int| 0 <= m < id_values(start2).len() && id_values(start2)[m] == x;
        let y = v.roots@[m];
        assert(v.roots@.contains(y));
        if start.contains(y) && r.contains(y.0) {
        } else {
            assert(node_id_set(v.nodes@).contains(y));
            let ids = v.nodes@.map_values(|n: DefinitionNode| n.id);
            assert(ids.contains(y));
            let k = choose|k: int| 0 <= k < ids.len() && ids[k] == y;
            assert(pn(nv[k]));
        }
    }
    assert forall|i: int| 0 <= i < fwd.len() && r.contains(fwd[i].0) implies exists|j: int|
        0 <= j < arcs2.len() && #[trigger] arcs2[j] == #[trigger] fwd[i] by {
        assert(r.contains(fwd[i].1));
        assert(pe(eg[i]));
        eg.lemma_filter_contains(pe, i);
        crate::definition_order::lemma_sorted_edges_keep(ev, eg.filter(pe), eg[i]);
        let j = choose|j: int| 0 <= j < ev.len() && ev[j] == eg[i];
        assert(arcs2[j] == fwd[i]);
    }
    assert forall|j: int| 0 <= j < arcs2.len() implies r.contains(#[trigger] arcs2[j].0) && r.contains(arcs2[j].1) by {
        assert(pe(ev[j]));
    }
    crate::reach::lemma_reach_transfer(fwd, s0, r, arcs2, s2);
    crate::reach::lemma_reach_exists(arcs2, s2);
    let r2set = included_spec(v, focus, start2);
    assert(is_reach_set(arcs2, s2, r2set));
    lemma_reach_set_unique(arcs2, s2, r2set, r);
    assert(r2set == r);
    assert(v.nodes@.len() > 0);
    if let Ok(w) = r2 {
        let nw = node_views(w.nodes@);
        let ew = edge_views(w.edges@);
        lemma_filter_all(nv, pn);
        lemma_filter_all(ev, pe);
        assert(stable_sorted_nodes(nw, nv.filter(pn)));
        assert(stable_sorted_edges(ew, ev.filter(pe)));
        crate::definition_order::lemma_sorted_nodes_unique(nw, nv);
        crate::definition_order::lemma_sorted_edges_unique(ew, ev);
        lemma_same_ids(w, v);
        assert forall|x: NodeId| w.roots@.contains(x) <==> v.roots@.contains(x) by {
            if v.roots@.contains(x) && !(start.contains(x) && r.contains(x.0)) {
                assert(node_id_set(v.nodes@).contains(x));
                let ids = v.nodes@.map_values(|n: DefinitionNode| n.id);
                assert(ids.contains(x));
                let k = choose|k: int| 0 <= k < ids.len() && ids[k] == x;
                assert(pn(nv[k]));
            }
        }
        lemma_increasing_ids_unique(w.roots@, v.roots@);
    }
}

impl DefinitionGraph {
    /// The part of the graph that `options` asks to see: see [`view_ok`].
    pub fn view(&self, options: &DefinitionRenderOptions) -> (r: Result<DefinitionGraph, ToolingError>)
        ensures
            view_ok(*self, texts(options.focus@), options.root_node, r),
    {
        broadcast use vstd::seq_lib::group_seq_properties;

        if self.nodes.len() == 0 {
            return Ok(DefinitionGraph::default());
        }
        let start: Vec<NodeId> = match options.root_node {
            Some(id) => {
                proof {
                    lemma_node_at(self.nodes@, id);
                }
                if self.find_node(id).is_none() {
                    let mut m = copy_str("definition node ");
                    push_u64(&mut m, id.0);
                    push_str(&mut m, " does not exist");
                    return Err(ToolingError::Parse(m));
                }
                let mut v: Vec<NodeId> = Vec::new();
                v.push(id);
                assert(v@ =~= seq![id]);
                v
            },
            None => root_list(self),
        };
        assert(start@ == view_start(*self, options.root_node));
        let inc = included_ids(self, &options.focus, &start);
        let ghost incl = included_spec(*self, texts(options.focus@), start@);
        let nodes = sort_nodes(kept_nodes(&self.nodes, &inc));
        let edges = sort_edges(kept_edges(&self.edges, &inc));
        assert((|n: DefNodeView| inc@.to_set().contains(n.id.0)) =~= (|n: DefNodeView| incl.contains(n.id.0)));
        assert((|e: DefEdgeView| inc@.to_set().contains(e.from.0) && inc@.to_set().contains(e.to.0)) =~= (|e: DefEdgeView|
            incl.contains(e.from.0) && incl.contains(e.to.0)));
        let mut cands: Vec<NodeId> = Vec::new();
        let mut i: usize = 0;
        while i < start.len()
            invariant
                i <= start.len(),
                inc@.to_set() == incl,
                forall|x: NodeId| cands@.contains(x) <==> (start@.take(i as int).contains(x) && incl.contains(x.0)),
            decreases start.len() - i,
        {
            let ghost before = cands@;
            let ghost now = start@.take(i + 1);
            let ghost prev = start@.take(i as int);
            assert(now =~= prev.push(start@[i as int]));
            proof {
                lemma_push_contains(prev, start@[i as int]);
            }
            if contains_id(&inc, start[i].0) {
                cands.push(start[i]);
                proof {
                    lemma_push_contains(before, start@[i as int]);
                    assert(cands@ =~= before.push(start@[i as int]));
                }
            }
            i += 1;
        }
        assert(start@.take(start.len() as int) =~= start@);
        let ghost from_start = cands@;
        let ghost ids = nodes@.map_values(|n: DefinitionNode| n.id);
        let mut j: usize = 0;
        while j < nodes.len()
            invariant
                j <= nodes.len(),
                ids == nodes@.map_values(|n: DefinitionNode| n.id),
                forall|x: NodeId| cands@.contains(x) <==> (from_start.contains(x) || (ids.take(j as int).contains(x)
                    && !is_edge_target(edges@, x))),
            decreases nodes.len() - j,
        {
            let ghost before = cands@;
            let ghost nowi = ids.take(j + 1);
            let ghost previ = ids.take(j as int);
            assert(nowi =~= previ.push(nodes@[j as int].id));
            proof {
                lemma_push_contains(previ, nodes@[j as int].id);
            }
            let target = is_target(&edges, nodes[j].id);
            if !target {
                cands.push(nodes[j].id);
                proof {
                    lemma_push_contains(before, nodes@[j as int].id);
                    assert(cands@ =~= before.push(nodes@[j as int].id));
                }
            }
            assert forall|x: NodeId| cands@.contains(x) <==> (from_start.contains(x) || (nowi.contains(x)
                && !is_edge_target(edges@, x))) by {
                let id = nodes@[j as int].id;
                assert(nowi.contains(x) <==> (previ.contains(x) || x == id));
                assert(before.contains(x) <==> (from_start.contains(x) || (previ.contains(x) && !is_edge_target(edges@, x))));
                assert(target == is_edge_target(edges@, id));
                if !target {
                    assert(cands@.contains(x) <==> (before.contains(x) || x == id));
                } else {
                    assert(cands@ == before);
                }
            }
            j += 1;
        }
        assert(ids.take(nodes.len() as int) =~= ids);
        assert(j == nodes.len());
        assert(ids.take(j as int) == ids);
        assert forall|x: NodeId| cands@.contains(x) <==> (from_start.contains(x) || (ids.contains(x) && !is_edge_target(edges@, x))) by {
            assert(cands@.contains(x) <==> (from_start.contains(x) || (ids.take(j as int).contains(x) && !is_edge_target(edges@, x))));
        }
        let roots = sorted_unique_ids(&cands);
        let v = DefinitionGraph { roots, nodes, edges };
        assert(node_id_set(v.nodes@) == ids.to_set());
        assert forall|x: NodeId|
            v.roots@.contains(x) <==> ((start@.contains(x) && incl.contains(x.0)) || (node_id_set(v.nodes@).contains(x)
                && !is_edge_target(v.edges@, x))) by {
            assert(ids.to_set().contains(x) == ids.contains(x));
            assert(v.roots@.contains(x) <==> cands@.contains(x));
            assert(cands@.contains(x) <==> (from_start.contains(x) || (ids.contains(x) && !is_edge_target(edges@, x))));
            assert(from_start.contains(x) <==> (start@.contains(x) && incl.contains(x.0)));
        }
        assert(view_roots_ok(v.roots@, start@, incl, v));
        Ok(v)
    }

    /// The tree text of the view that `options` asks for.
    pub fn to_tree_text_with_options(&self, options: &DefinitionRenderOptions) -> (r: Result<String, ToolingError>)
        ensures
            match r {
                Ok(t) => exists|v: DefinitionGraph|
                    view_ok(*self, texts(options.focus@), options.root_node, Ok(v)) && t@ == tree_text_spec(
                        v,
                        options.compact,
                        options.show_sources,
                    ),
                Err(e) => view_ok(*self, texts(options.focus@), options.root_node, Err(e)),
            },
    {
        let graph = self.view(options)?;
        Ok(graph.render_tree_text(options))
    }

    /// The view that `options` asks for, in Graphviz's dot language.
    pub fn to_dot_with_options(&self, options: &DefinitionRenderOptions) -> (r: Result<String, ToolingError>)
        ensures
            match r {
                Ok(t) => exists|v: DefinitionGraph|
                    view_ok(*self, texts(options.focus@), options.root_node, Ok(v)) && t@ == dot_spec(v),
                Err(e) => view_ok(*self, texts(options.focus@), options.root_node, Err(e)),
            },
            forall|v: DefinitionGraph| #[trigger]
                view_ok(*self, texts(options.focus@), options.root_node, Ok(v)) ==> (r matches Ok(t) && t@
                    == dot_spec(v)),
    {
        let res = self.view(options);
        proof {
            assert forall|v: DefinitionGraph| #[trigger]
                view_ok(*self, texts(options.focus@), options.root_node, Ok(v)) implies (res matches Ok(g) && dot_spec(g)
                    == dot_spec(v)) by {
                view_has_one_result(*self, texts(options.focus@), options.root_node, Ok(v), res);
                if let Ok(g) = res {
                    lemma_texts_follow_views(g, v);
                }
            }
        }
        match res {
            Ok(graph) => Ok(graph.to_dot()),
            Err(e) => Err(e),
        }
    }

    /// The view that `options` asks for, as a Mermaid flowchart.
    pub fn to_mermaid_with_options(&self, options: &DefinitionRenderOptions) -> (r: Result<String, ToolingError>)
        ensures
            match r {
                Ok(t) => exists|v: DefinitionGraph|
                    view_ok(*self, texts(options.focus@), options.root_node, Ok(v)) && t@ == mermaid_spec(v),
                Err(e) => view_ok(*self, texts(options.focus@), options.root_node, Err(e)),
            },
            forall|v: DefinitionGraph| #[trigger]
                view_ok(*self, texts(options.focus@), options.root_node, Ok(v)) ==> (r matches Ok(t) && t@
                    == mermaid_spec(v)),
    {
        let res = self.view(options);
        proof {
            assert forall|v: DefinitionGraph| #[trigger]
                view_ok(*self, texts(options.focus@), options.root_node, Ok(v)) implies (res matches Ok(g)
                    && mermaid_spec(g) == mermaid_spec(v)) by {
                view_has_one_result(*self, texts(options.focus@), options.root_node, Ok(v), res);
                if let Ok(g) = res {
                    lemma_texts_follow_views(g, v);
                }
            }
        }
        match res {
            Ok(graph) => Ok(graph.to_mermaid()),
            Err(e) => Err(e),
        }
    }
}

} // verus!
