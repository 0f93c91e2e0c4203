use typelude_tooling::definition::{
    DefinitionCompactMode, DefinitionEdge, DefinitionEdgeKind, DefinitionGraph, DefinitionNode,
    DefinitionNodeKind, DefinitionRenderOptions,
};
use typelude_tooling::error::ToolingError;
use typelude_tooling::ids::NodeId;
use typelude_tooling::strmap::StrMap;

fn meta(pairs: &[(&str, &str)]) -> StrMap {
    let mut m = StrMap::new();
    for (k, v) in pairs {
        m.insert(String::from(*k), String::from(*v));
    }
    m
}

fn node(id: u64, kind: DefinitionNodeKind, label: &str, metadata: StrMap) -> DefinitionNode {
    DefinitionNode { id: NodeId::new(id), kind, label: String::from(label), def_path: None, span_id: None, source: None, metadata }
}

fn edge(from: u64, to: u64, kind: DefinitionEdgeKind, label: &str) -> DefinitionEdge {
    DefinitionEdge { from: NodeId::new(from), to: NodeId::new(to), kind, label: String::from(label), metadata: StrMap::new() }
}

fn sample_graph() -> DefinitionGraph {
    DefinitionGraph {
        roots: vec![NodeId::new(1)],
        nodes: vec![
            DefinitionNode {
                id: NodeId::new(1),
                kind: DefinitionNodeKind::TypeAlias,
                label: String::from("type Fib<N>"),
                def_path: Some(String::from("ty_fibonacci::Fib")),
                span_id: None,
                source: Some(String::from("type Fib<N> = <() as Apply<OpWhile, N>>::Output;")),
                metadata: StrMap::new(),
            },
            node(2, DefinitionNodeKind::Projection, "<() as Apply<OpWhile, N>>::Output", StrMap::new()),
        ],
        edges: vec![edge(1, 2, DefinitionEdgeKind::ExpandsTo, "expands_to")],
    }
}

#[test]
fn tree_renderer_includes_projection() {
    let rendered = sample_graph().to_tree_text();
    assert!(rendered.contains("definition_tree"));
    assert!(rendered.contains("projection"));
    assert!(rendered.contains("Apply<OpWhile"));
}

#[test]
fn graph_renderers_emit_shapes() {
    let graph = sample_graph();
    assert!(graph.to_dot().contains("digraph definition"));
    assert!(graph.to_mermaid().contains("flowchart TD"));
}

#[test]
fn tree_renderer_can_focus_and_reroot() {
    let graph = sample_graph();
    let focused = graph
        .to_tree_text_with_options(&DefinitionRenderOptions {
            compact: DefinitionCompactMode::Basic,
            focus: vec![String::from("Apply<OpWhile")],
            root_node: None,
            show_sources: false,
        })
        .expect("focused tree should render");
    assert!(focused.contains("type Fib<N>"));
    assert!(focused.contains("Apply<OpWhile"));

    let rerooted = graph
        .to_tree_text_with_options(&DefinitionRenderOptions {
            root_node: Some(NodeId::new(2)),
            show_sources: false,
            ..DefinitionRenderOptions::default()
        })
        .expect("rerooted tree should render");
    assert!(!rerooted.contains("type_alias"));
    assert!(rerooted.contains("projection"));
}

#[test]
fn tree_renderer_marks_repeats_cycles_and_max_depth() {
    let graph = DefinitionGraph {
        roots: vec![NodeId::new(1)],
        nodes: vec![
            DefinitionNode {
                id: NodeId::new(1),
                kind: DefinitionNodeKind::TypeAlias,
                label: String::from("type A"),
                def_path: Some(String::from("fixture::A")),
                span_id: None,
                source: None,
                metadata: meta(&[("definition_key", "alias:fixture::A:")]),
            },
            node(
                2,
                DefinitionNodeKind::Cycle,
                "alias:fixture::A:",
                meta(&[("reason", "already_expanded"), ("cycle_key", "alias:fixture::A:")]),
            ),
            node(3, DefinitionNodeKind::Unresolved, "max depth reached (1)", meta(&[("reason", "max_depth")])),
        ],
        edges: vec![
            edge(1, 2, DefinitionEdgeKind::References, "already expanded"),
            edge(1, 3, DefinitionEdgeKind::References, "max_depth"),
        ],
    };
    let rendered = graph.to_tree_text();
    assert!(rendered.contains("repeated_nodes=1"));
    assert!(rendered.contains("max_depth_leaves=1"));
    assert!(rendered.contains("already_expanded -> node#1"));
    assert!(rendered.contains("reason=max_depth"));
}

#[test]
fn tree_text_is_exact_for_a_small_graph() {
    let text = sample_graph().to_tree_text();
    let expected = [
        "view_kind=definition_tree",
        "nodes=2 edges=1 projections=1 impl_branches=0 where_predicates=0 cycles=0 repeated_nodes=0 external_leaves=0 max_depth_leaves=0 max_depth=1",
        "- type_alias: type Fib<N> [ty_fibonacci::Fib] = type Fib<N> = <() as Apply<OpWhile, N>>::Output;",
        "  => expands_to: expands_to",
        "    - projection: <() as Apply<OpWhile, N>>::Output",
    ]
    .join("\n");
    assert_eq!(text, expected);
    assert_eq!(DefinitionGraph { roots: vec![], nodes: vec![], edges: vec![] }.to_tree_text(), "definition_tree: empty");
}

#[test]
fn stats_count_kinds_and_depth() {
    let graph = DefinitionGraph {
        roots: vec![],
        nodes: vec![
            node(1, DefinitionNodeKind::TypeAlias, "a", StrMap::new()),
            node(2, DefinitionNodeKind::ImplBranch, "b", StrMap::new()),
            node(3, DefinitionNodeKind::WherePredicate, "c", StrMap::new()),
            node(4, DefinitionNodeKind::Cycle, "d", StrMap::new()),
            node(5, DefinitionNodeKind::ExternalLeaf, "e", StrMap::new()),
        ],
        edges: vec![
            edge(1, 2, DefinitionEdgeKind::ImplementedBy, "x"),
            edge(2, 3, DefinitionEdgeKind::HasWherePredicate, "y"),
            edge(3, 4, DefinitionEdgeKind::References, "z"),
            edge(1, 4, DefinitionEdgeKind::References, "w"),
        ],
    };
    let stats = graph.stats();
    assert_eq!(stats.node_count, 5);
    assert_eq!(stats.edge_count, 4);
    assert_eq!(stats.impl_branch_count, 1);
    assert_eq!(stats.where_predicate_count, 1);
    assert_eq!(stats.cycle_count, 1);
    assert_eq!(stats.external_leaf_count, 1);
    assert_eq!(stats.max_depth, 2);
}

#[test]
fn dot_and_mermaid_are_exact() {
    let graph = DefinitionGraph {
        roots: vec![],
        nodes: vec![
            node(1, DefinitionNodeKind::Projection, "say \"hi\"\\", StrMap::new()),
            node(2, DefinitionNodeKind::WherePredicate, "w", StrMap::new()),
        ],
        edges: vec![edge(1, 2, DefinitionEdgeKind::HasWherePredicate, "has \"w\"")],
    };
    assert_eq!(
        graph.to_dot(),
        "digraph definition {\n  rankdir=TB;\n  n1 [label=\"say \\\"hi\\\"\\\\\" shape=diamond];\n  n2 [label=\"w\" shape=note];\n  n1 -> n2 [label=\"has \\\"w\\\"\"];\n}"
    );
    assert_eq!(
        graph.to_mermaid(),
        "flowchart TD\n  n1{\"say 'hi'\\\"}\n  n2((\"w\"))\n  n1 -->|has 'w'| n2\n"
    );
}

#[test]
fn view_refuses_unknown_root_and_sorts() {
    let graph = sample_graph();
    let err = graph
        .view(&DefinitionRenderOptions { root_node: Some(NodeId::new(9)), ..DefinitionRenderOptions::default() })
        .expect_err("unknown root should be refused");
    assert_eq!(err, ToolingError::Parse(String::from("definition node 9 does not exist")));

    let unsorted = DefinitionGraph {
        roots: vec![NodeId::new(3)],
        nodes: vec![
            node(3, DefinitionNodeKind::TypeAlias, "c", StrMap::new()),
            node(1, DefinitionNodeKind::TypeRef, "a", StrMap::new()),
            node(2, DefinitionNodeKind::TypeRef, "unreached", StrMap::new()),
        ],
        edges: vec![edge(3, 1, DefinitionEdgeKind::References, "b"), edge(3, 1, DefinitionEdgeKind::References, "a")],
    };
    let view = unsorted.view(&DefinitionRenderOptions::default()).expect("view");
    let ids: Vec<u64> = view.nodes.iter().map(|n| n.id.0).collect();
    assert_eq!(ids, vec![1, 3]);
    let labels: Vec<&str> = view.edges.iter().map(|e| e.label.as_str()).collect();
    assert_eq!(labels, vec!["a", "b"]);
    assert_eq!(view.roots, vec![NodeId::new(3)]);
}

#[test]
fn views_show_only_graph_items() {
    let graph = DefinitionGraph {
        roots: vec![NodeId::new(1)],
        nodes: vec![
            node(1, DefinitionNodeKind::TypeAlias, "root", StrMap::new()),
            node(2, DefinitionNodeKind::TypeRef, "left", StrMap::new()),
            node(3, DefinitionNodeKind::TypeRef, "right", StrMap::new()),
            node(4, DefinitionNodeKind::TypeRef, "elsewhere", StrMap::new()),
        ],
        edges: vec![
            edge(1, 2, DefinitionEdgeKind::References, "l"),
            edge(1, 3, DefinitionEdgeKind::References, "r"),
            edge(4, 3, DefinitionEdgeKind::References, "x"),
        ],
    };
    for focus in [vec![], vec![String::from("left")], vec![String::from("right")]] {
        let view = graph.view(&DefinitionRenderOptions { focus, ..DefinitionRenderOptions::default() }).expect("view");
        for n in &view.nodes {
            assert!(graph.nodes.contains(n));
        }
        for e in &view.edges {
            assert!(graph.edges.contains(e));
        }
    }
    let focused = graph
        .view(&DefinitionRenderOptions { focus: vec![String::from("left")], ..DefinitionRenderOptions::default() })
        .expect("view");
    let ids: Vec<u64> = focused.nodes.iter().map(|n| n.id.0).collect();
    assert_eq!(ids, vec![1, 2]);
}

#[test]
fn dot_and_mermaid_follow_the_view() {
    let graph = sample_graph();
    let options = DefinitionRenderOptions { root_node: Some(NodeId::new(2)), ..DefinitionRenderOptions::default() };
    let dot = graph.to_dot_with_options(&options).expect("dot");
    assert_eq!(dot, graph.view(&options).expect("view").to_dot());
    assert!(!dot.contains("type Fib<N>"));
    let mermaid = graph.to_mermaid_with_options(&options).expect("mermaid");
    assert_eq!(mermaid, graph.view(&options).expect("view").to_mermaid());
    let missing = DefinitionRenderOptions { root_node: Some(NodeId::new(42)), ..DefinitionRenderOptions::default() };
    assert_eq!(
        graph.to_dot_with_options(&missing),
        Err(ToolingError::Parse(String::from("definition node 42 does not exist")))
    );
    assert!(graph.to_mermaid_with_options(&missing).is_err());
}

#[test]
fn viewing_a_view_again_changes_nothing() {
    let graph = DefinitionGraph {
        roots: vec![NodeId::new(1)],
        nodes: vec![
            node(3, DefinitionNodeKind::TypeRef, "c", StrMap::new()),
            node(1, DefinitionNodeKind::TypeAlias, "a", StrMap::new()),
            node(2, DefinitionNodeKind::TypeRef, "b", StrMap::new()),
            node(4, DefinitionNodeKind::TypeRef, "unreached", StrMap::new()),
        ],
        edges: vec![
            edge(2, 3, DefinitionEdgeKind::References, "y"),
            edge(1, 2, DefinitionEdgeKind::References, "x"),
            edge(3, 1, DefinitionEdgeKind::References, "back"),
        ],
    };
    let options = DefinitionRenderOptions::default();
    let view = graph.view(&options).expect("view");
    let again = view.view(&options).expect("view again");
    assert_eq!(again, view);
    assert_eq!(graph.to_dot_with_options(&options).expect("dot"), view.to_dot());
    assert_eq!(graph.to_mermaid_with_options(&options).expect("mermaid"), view.to_mermaid());
}
