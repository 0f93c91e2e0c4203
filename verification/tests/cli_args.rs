use typelude_tooling::cli_args::{
    definition_compact_mode, definition_render_options, filter_links_for_graph, query_match_kind, trim_command_output,
    DefTreeCompactArg, DefTreeRenderArgs, HookArg, OutputModeArg, OwnerMatchArg,
};
use typelude_tooling::cli_args::{query_target_kind, QueryKindArg};
use typelude_tooling::definition::{DefinitionCompactMode, DefinitionGraph, DefinitionNode, DefinitionNodeKind};
use typelude_tooling::definition_solve::{DefinitionSolveLink, DefinitionSolveLinkConfidence, DefinitionSolveLinks};
use typelude_tooling::ids::{HookId, NodeId};
use typelude_tooling::query::{QueryMatchKind, QueryTargetKind};
use typelude_tooling::render::RenderMode;
use typelude_tooling::strmap::StrMap;

#[test]
fn converts_def_tree_compact_mode() {
    assert_eq!(definition_compact_mode(DefTreeCompactArg::Aggressive), DefinitionCompactMode::Aggressive);
}

#[test]
fn output_mode_maps_to_render_mode() {
    let render_mode: RenderMode = OutputModeArg::Json.into();
    assert_eq!(render_mode, RenderMode::Json);
}

#[test]
fn hooks_name_their_environment_and_id() {
    assert_eq!(HookArg::TraitSolve.as_env(), "trait_solve");
    assert_eq!(HookArg::ItemStructure.as_env(), "item_structure");
    assert_eq!(HookArg::Diagnostics.hook_id(), HookId::Diagnostics);
    assert_eq!(query_match_kind(OwnerMatchArg::DefId), QueryMatchKind::DefId);
    let text: RenderMode = OutputModeArg::Text.into();
    assert_eq!(text, RenderMode::Text);
}

#[test]
fn render_options_hide_sources_when_aggressive() {
    let mut args = DefTreeRenderArgs {
        compact: DefTreeCompactArg::Aggressive,
        focus: vec![String::from("Fib")],
        node: Some(3),
        show_sources: false,
        hide_sources: false,
    };
    let options = definition_render_options(&args);
    assert!(!options.show_sources);
    assert_eq!(options.root_node, Some(NodeId::new(3)));
    assert_eq!(options.focus, vec![String::from("Fib")]);
    args.show_sources = true;
    assert!(definition_render_options(&args).show_sources);
    args.hide_sources = true;
    assert!(!definition_render_options(&args).show_sources);
    args.compact = DefTreeCompactArg::Basic;
    args.show_sources = false;
    args.hide_sources = false;
    assert!(definition_render_options(&args).show_sources);
}

#[test]
fn links_are_kept_for_nodes_of_the_graph() {
    let graph = DefinitionGraph {
        roots: vec![NodeId::new(1)],
        nodes: vec![DefinitionNode {
            id: NodeId::new(1),
            kind: DefinitionNodeKind::TypeAlias,
            label: String::from("type A"),
            def_path: None,
            span_id: None,
            source: None,
            metadata: StrMap::new(),
        }],
        edges: vec![],
    };
    let link = |id: u64| DefinitionSolveLink {
        def_node_id: NodeId::new(id),
        goal_ids: vec![],
        candidate_ids: vec![],
        link_key: String::from("k"),
        confidence: DefinitionSolveLinkConfidence::NormalizedText,
    };
    let links = DefinitionSolveLinks { links: vec![link(2), link(1), link(3)] };
    let kept = filter_links_for_graph(&links, &graph);
    assert_eq!(kept.links, vec![link(1)]);
}

#[test]
fn command_output_is_trimmed_and_cut() {
    assert_eq!(trim_command_output("  short \n"), "short");
    let long = "x".repeat(4005);
    let cut = trim_command_output(&long);
    assert_eq!(cut.len(), 4003);
    assert!(cut.ends_with("..."));
    assert_eq!(trim_command_output(&"y".repeat(4000)).len(), 4000);
}

#[test]
fn query_kinds_map_to_targets() {
    assert_eq!(query_target_kind(QueryKindArg::Owner), QueryTargetKind::AnyOwner);
    assert_eq!(query_target_kind(QueryKindArg::Impl), QueryTargetKind::ImplOwner);
    assert_eq!(query_target_kind(QueryKindArg::AssocItem), QueryTargetKind::AssocItemOwner);
}
