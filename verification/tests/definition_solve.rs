use typelude_tooling::definition::{DefinitionEdge, DefinitionEdgeKind, DefinitionGraph, DefinitionNode, DefinitionNodeKind};
use typelude_tooling::definition_solve::{
    build_definition_solve_links, dedupe_keys, match_link_keys, normalize_link_text, DefinitionSolveLinkConfidence, LinkKey,
};
use typelude_tooling::ids::{CandidateId, GoalId, NodeId, SubjectId, SubjectKind, TraceId};
use typelude_tooling::solve::{GoalTree, GoalTreeCandidate, GoalTreeGoal, GoalTreeSubject};
use typelude_tooling::strmap::StrMap;
use typelude_tooling::trace::{CandidateKind, GoalResult, PredicateRepr};

fn meta(pairs: &[(&str, &str)]) -> StrMap {
    let mut m = StrMap::new();
    for (k, v) in pairs {
        m.insert(String::from(*k), String::from(*v));
    }
    m
}

fn fixture_graph() -> DefinitionGraph {
    DefinitionGraph {
        roots: vec![NodeId::new(1)],
        nodes: vec![
            DefinitionNode {
                id: NodeId::new(1),
                kind: DefinitionNodeKind::TypeAlias,
                label: String::from("type Fib<N>"),
                def_path: Some(String::from("fixture::Fib")),
                span_id: None,
                source: None,
                metadata: meta(&[("alias_key", "fixture::Fib")]),
            },
            DefinitionNode {
                id: NodeId::new(2),
                kind: DefinitionNodeKind::Projection,
                label: String::from("<() as Apply<OpWhile, State>>::Output"),
                def_path: None,
                span_id: None,
                source: None,
                metadata: meta(&[("projection_key", "<() as Apply<OpWhile, State>>::Output")]),
            },
            DefinitionNode {
                id: NodeId::new(3),
                kind: DefinitionNodeKind::ImplBranch,
                label: String::from("impl Apply<OpWhile, State> for ()"),
                def_path: Some(String::from("fixture::{impl#0}")),
                span_id: None,
                source: None,
                metadata: meta(&[("impl_key", "fixture::{impl#0}")]),
            },
        ],
        edges: vec![
            DefinitionEdge {
                from: NodeId::new(1),
                to: NodeId::new(2),
                kind: DefinitionEdgeKind::ExpandsTo,
                label: String::from("expands_to"),
                metadata: StrMap::new(),
            },
            DefinitionEdge {
                from: NodeId::new(2),
                to: NodeId::new(3),
                kind: DefinitionEdgeKind::ImplementedBy,
                label: String::from("implemented_by"),
                metadata: StrMap::new(),
            },
        ],
    }
}

fn fixture_tree() -> GoalTree {
    GoalTree {
        trace_id: TraceId::new(1),
        subjects: vec![GoalTreeSubject {
            id: SubjectId::new(1),
            kind: SubjectKind::Predicate,
            label: String::from("fixture::Fib"),
            metadata: meta(&[("owner_path", "fixture::Fib")]),
            roots: vec![GoalTreeGoal {
                id: GoalId::new(1),
                parent_goal_id: None,
                predicate: PredicateRepr::DebugText(String::from(
                    "Binder { value: NormalizesTo(<() as Apply<OpWhile, State>>::Output, T), bound_vars: [] }",
                )),
                result: GoalResult::Success,
                depth: 0,
                semantic_tags: Vec::new(),
                candidates: vec![GoalTreeCandidate {
                    id: CandidateId::new(1),
                    kind: CandidateKind::Impl,
                    result: GoalResult::Success,
                    semantic_tags: Vec::new(),
                    metadata: meta(&[
                        ("impl_key", "fixture::{impl#0}"),
                        ("raw_candidate_kind", "ImplCandidate(fixture::{impl#0})"),
                    ]),
                }],
                children: Vec::new(),
            }],
        }],
    }
}

#[test]
fn links_definition_and_solve_by_metadata_and_text() {
    let links = build_definition_solve_links(&fixture_graph(), &fixture_tree());
    assert!(links
        .links
        .iter()
        .any(|link| link.def_node_id == NodeId::new(1) && link.confidence == DefinitionSolveLinkConfidence::ExactPath));
    assert!(links.links.iter().any(|link| link.def_node_id == NodeId::new(2) && link.goal_ids.contains(&GoalId::new(1))));
    assert!(links
        .links
        .iter()
        .any(|link| link.def_node_id == NodeId::new(3) && link.candidate_ids.contains(&CandidateId::new(1))));
}

#[test]
fn links_report_their_key_and_confidence() {
    let links = build_definition_solve_links(&fixture_graph(), &fixture_tree());
    assert_eq!(links.links.len(), 3);
    let first = &links.links[0];
    assert_eq!(first.link_key, "fixture::Fib");
    assert_eq!(first.goal_ids, vec![GoalId::new(1)]);
    assert!(first.candidate_ids.is_empty());
    let second = &links.links[1];
    assert_eq!(second.confidence, DefinitionSolveLinkConfidence::FallbackText);
    assert_eq!(second.link_key, "<() as Apply<OpWhile, State>>::Output");
    let third = &links.links[2];
    assert_eq!(third.confidence, DefinitionSolveLinkConfidence::ExactPath);
    assert_eq!(third.link_key, "fixture::{impl#0}");
    assert_eq!(third.candidate_ids, vec![CandidateId::new(1)]);
}

#[test]
fn unmatched_nodes_get_no_link() {
    let mut graph = fixture_graph();
    graph.nodes.push(DefinitionNode {
        id: NodeId::new(9),
        kind: DefinitionNodeKind::Trait,
        label: String::from("trait Unrelated"),
        def_path: None,
        span_id: None,
        source: None,
        metadata: StrMap::new(),
    });
    let links = build_definition_solve_links(&graph, &fixture_tree());
    assert_eq!(links.links.len(), 3);
    assert!(links.links.iter().all(|link| link.def_node_id != NodeId::new(9)));
}

#[test]
fn normalizes_link_text() {
    assert_eq!(normalize_link_text("  Binder { value: Foo<'a, \"x\"> , bound_vars: [] }  "), "Foo<a,x>");
    assert_eq!(normalize_link_text("Binder { value: A B"), "AB");
    assert_eq!(normalize_link_text("a\tb\nc"), "abc");
}

#[test]
fn dedupe_keeps_first_and_prefers_exact_paths() {
    let keys = vec![
        LinkKey::new("a::B", false),
        LinkKey::new("  ", false),
        LinkKey::new("a :: B", true),
        LinkKey::new("c::D", true),
        LinkKey::new("c::D", false),
    ];
    let out = dedupe_keys(keys);
    assert_eq!(out.len(), 2);
    assert_eq!(out[0].raw, "a :: B");
    assert!(out[0].exact_path);
    assert_eq!(out[1].raw, "c::D");
    assert!(out[1].exact_path);
}

#[test]
fn short_texts_do_not_match_loosely() {
    let defs = vec![LinkKey::new("Foo::Bar", false)];
    let solves = vec![LinkKey::new("Foo::Bar", false)];
    let m = match_link_keys(DefinitionNodeKind::Trait, &defs, &solves).unwrap();
    assert_eq!(m.0, DefinitionSolveLinkConfidence::NormalizedText);
    let short = vec![LinkKey::new("Foo::B", false)];
    assert!(match_link_keys(DefinitionNodeKind::Projection, &short, &short).is_none());
    let inner = vec![LinkKey::new("Apply<Op>", false)];
    let outer = vec![LinkKey::new("Wrap<Apply<Op>>", false)];
    assert!(match_link_keys(DefinitionNodeKind::Trait, &inner, &outer).is_none());
    let loose = match_link_keys(DefinitionNodeKind::Projection, &inner, &outer).unwrap();
    assert_eq!(loose.0, DefinitionSolveLinkConfidence::FallbackText);
    assert_eq!(loose.1, "Apply<Op>");
}
