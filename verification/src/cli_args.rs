//! The choices the command line offers, and what each stands for in the library.
use vstd::prelude::*;

use crate::definition::{DefinitionCompactMode, DefinitionGraph, DefinitionRenderOptions};
use crate::definition_solve::{DefinitionSolveLink, DefinitionSolveLinks};
use crate::ids::{HookId, NodeId};
use crate::query::{QueryMatchKind, QueryTargetKind};
use crate::render::RenderMode;

verus! {

/// How a command writes its output.
#[derive(Debug, Clone, Copy, PartialEq, Eq, Structural)]
pub enum OutputModeArg {
    Text,
    Json,
}

pub open spec fn render_mode_of(value: OutputModeArg) -> RenderMode {
    match value {
        OutputModeArg::Text => RenderMode::Text,
        OutputModeArg::Json => RenderMode::Json,
    }
}

impl From<OutputModeArg> for RenderMode {
    fn from(value: OutputModeArg) -> (r: Self) {
        match value {
            OutputModeArg::Text => RenderMode::Text,
            OutputModeArg::Json => RenderMode::Json,
        }
    }
}

impl vstd::std_specs::convert::FromSpecImpl<OutputModeArg> for RenderMode {
    open spec fn obeys_from_spec() -> bool {
        true
    }

    open spec fn from_spec(value: OutputModeArg) -> RenderMode {
        render_mode_of(value)
    }
}

/// A hook of the compiler driver.
#[derive(Debug, Clone, Copy, PartialEq, Eq, Structural)]
pub enum HookArg {
    TraitSolve,
    Diagnostics,
    ItemStructure,
}

pub open spec fn hook_env_name(h: HookArg) -> Seq<char> {
    match h {
        HookArg::TraitSolve => "trait_solve"@,
        HookArg::Diagnostics => "diagnostics"@,
        HookArg::ItemStructure => "item_structure"@,
    }
}

impl HookArg {
    /// The name the driver reads from its environment.
    pub fn as_env(self) -> (r: &'static str)
        ensures
            r@ == hook_env_name(self),
    {
        match self {
            HookArg::TraitSolve => "trait_solve",
            HookArg::Diagnostics => "diagnostics",
            HookArg::ItemStructure => "item_structure",
        }
    }

    /// The hook this choice enables.
    pub fn hook_id(self) -> (r: HookId)
        ensures
            r == match self {
                HookArg::TraitSolve => HookId::TraitSolve,
                HookArg::Diagnostics => HookId::Diagnostics,
                HookArg::ItemStructure => HookId::ItemStructure,
            },
    {
        match self {
            HookArg::TraitSolve => HookId::TraitSolve,
            HookArg::Diagnostics => HookId::Diagnostics,
            HookArg::ItemStructure => HookId::ItemStructure,
        }
    }
}

/// How an owner given on the command line is matched.
#[derive(Debug, Clone, Copy, PartialEq, Eq, Structural)]
pub enum OwnerMatchArg {
    Substring,
    Suffix,
    Exact,
    DefId,
}

/// The format of a definition tree.
#[derive(Debug, Clone, Copy, PartialEq, Eq, Structural)]
pub enum DefTreeFormatArg {
    Tree,
    Dot,
    Mermaid,
    Json,
}

/// How much a definition tree is compacted.
#[derive(Debug, Clone, Copy, PartialEq, Eq, Structural)]
pub enum DefTreeCompactArg {
    Off,
    Basic,
    Aggressive,
}

/// The compaction a command line choice stands for.
pub fn definition_compact_mode(value: DefTreeCompactArg) -> (r: DefinitionCompactMode)
    ensures
        r == match value {
            DefTreeCompactArg::Off => DefinitionCompactMode::Off,
            DefTreeCompactArg::Basic => DefinitionCompactMode::Basic,
            DefTreeCompactArg::Aggressive => DefinitionCompactMode::Aggressive,
        },
{
    match value {
        DefTreeCompactArg::Off => DefinitionCompactMode::Off,
        DefTreeCompactArg::Basic => DefinitionCompactMode::Basic,
        DefTreeCompactArg::Aggressive => DefinitionCompactMode::Aggressive,
    }
}

/// The kind of owner a solver query on the command line looks for.
#[derive(Debug, Clone, Copy, PartialEq, Eq, Structural)]
pub enum QueryKindArg {
    Owner,
    Impl,
    AssocItem,
}

/// The query target a command line choice stands for.
pub fn query_target_kind(value: QueryKindArg) -> (r: QueryTargetKind)
    ensures
        r == match value {
            QueryKindArg::Owner => QueryTargetKind::AnyOwner,
            QueryKindArg::Impl => QueryTargetKind::ImplOwner,
            QueryKindArg::AssocItem => QueryTargetKind::AssocItemOwner,
        },
{
    match value {
        QueryKindArg::Owner => QueryTargetKind::AnyOwner,
        QueryKindArg::Impl => QueryTargetKind::ImplOwner,
        QueryKindArg::AssocItem => QueryTargetKind::AssocItemOwner,
    }
}

/// The owner matching a command line choice stands for.
pub fn query_match_kind(value: OwnerMatchArg) -> (r: QueryMatchKind)
    ensures
        r == match value {
            OwnerMatchArg::Substring => QueryMatchKind::Substring,
            OwnerMatchArg::Suffix => QueryMatchKind::Suffix,
            OwnerMatchArg::Exact => QueryMatchKind::Exact,
            OwnerMatchArg::DefId => QueryMatchKind::DefId,
        },
{
    match value {
        OwnerMatchArg::Substring => QueryMatchKind::Substring,
        OwnerMatchArg::Suffix => QueryMatchKind::Suffix,
        OwnerMatchArg::Exact => QueryMatchKind::Exact,
        OwnerMatchArg::DefId => QueryMatchKind::DefId,
    }
}

/// The options of the `def-tree` command that shape the rendering.
#[derive(Debug, Clone, PartialEq, Eq)]
pub struct DefTreeRenderArgs {
    pub compact: DefTreeCompactArg,
    pub focus: Vec<String>,
    pub node: Option<u64>,
    pub show_sources: bool,
    pub hide_sources: bool,
}

/// Whether sources are shown: not when hidden, always when asked for, else unless compaction
/// is aggressive.
pub open spec fn shows_sources(a: DefTreeRenderArgs) -> bool {
    if a.hide_sources {
        false
    } else if a.show_sources {
        true
    } else {
        a.compact != DefTreeCompactArg::Aggressive
    }
}

/// The render options the command line options stand for.
pub fn definition_render_options(options: &DefTreeRenderArgs) -> (r: DefinitionRenderOptions)
    ensures
        r.compact == definition_compact_mode_spec(options.compact),
        crate::text::texts(r.focus@) == crate::text::texts(options.focus@),
        r.root_node == match options.node {
            Some(n) => Some(NodeId(n)),
            None => None,
        },
        r.show_sources == shows_sources(*options),
{
    let mut focus: Vec<String> = Vec::new();
    let mut i: usize = 0;
    while i < options.focus.len()
        invariant
            i <= options.focus.len(),
            crate::text::texts(focus@) == crate::text::texts(options.focus@).take(i as int),
        decreases options.focus.len() - i,
    {
        let ghost before = focus@;
        focus.push(options.focus[i].clone());
        assert(crate::text::texts(focus@) =~= crate::text::texts(before).push(options.focus@[i as int]@));
        assert(crate::text::texts(options.focus@).take(i + 1) =~= crate::text::texts(options.focus@).take(i as int).push(
            options.focus@[i as int]@,
        ));
        i += 1;
    }
    assert(crate::text::texts(options.focus@).take(i as int) =~= crate::text::texts(options.focus@));
    let show_sources = if options.hide_sources {
        false
    } else if options.show_sources {
        true
    } else {
        options.compact != DefTreeCompactArg::Aggressive
    };
    DefinitionRenderOptions {
        compact: definition_compact_mode(options.compact),
        focus,
        root_node: match options.node {
            Some(n) => Some(NodeId(n)),
            None => None,
        },
        show_sources,
    }
}

pub open spec fn definition_compact_mode_spec(value: DefTreeCompactArg) -> DefinitionCompactMode {
    match value {
        DefTreeCompactArg::Off => DefinitionCompactMode::Off,
        DefTreeCompactArg::Basic => DefinitionCompactMode::Basic,
        DefTreeCompactArg::Aggressive => DefinitionCompactMode::Aggressive,
    }
}

/// The node identifiers of a graph.
pub open spec fn graph_node_ids(g: DefinitionGraph) -> Set<u64> {
    Set::new(|id: u64| exists|i: int| 0 <= i < g.nodes@.len() && (#[trigger] g.nodes@[i]).id.0 == id)
}

/// The links whose node lies in `graph`, in order.
pub open spec fn links_in_graph(links: Seq<DefinitionSolveLink>, ids: Set<u64>) -> Seq<DefinitionSolveLink>
    decreases links.len(),
{
    if links.len() == 0 {
        Seq::empty()
    } else {
        let rest = links_in_graph(links.drop_last(), ids);
        if ids.contains(links.last().def_node_id.0) {
            rest.push(links.last())
        } else {
            rest
        }
    }
}

fn copy_link(l: &DefinitionSolveLink) -> (r: DefinitionSolveLink)
    ensures
        r.def_node_id == l.def_node_id,
        r.goal_ids@ == l.goal_ids@,
        r.candidate_ids@ == l.candidate_ids@,
        r.link_key@ == l.link_key@,
        r.confidence == l.confidence,
{
    let mut goal_ids = Vec::new();
    let mut i: usize = 0;
    while i < l.goal_ids.len()
        invariant
            i <= l.goal_ids.len(),
            goal_ids@ == l.goal_ids@.take(i as int),
        decreases l.goal_ids.len() - i,
    {
        goal_ids.push(l.goal_ids[i]);
        assert(goal_ids@ =~= l.goal_ids@.take(i + 1));
        i += 1;
    }
    let mut candidate_ids = Vec::new();
    let mut j: usize = 0;
    while j < l.candidate_ids.len()
        invariant
            j <= l.candidate_ids.len(),
            candidate_ids@ == l.candidate_ids@.take(j as int),
        decreases l.candidate_ids.len() - j,
    {
        candidate_ids.push(l.candidate_ids[j]);
        assert(candidate_ids@ =~= l.candidate_ids@.take(j + 1));
        j += 1;
    }
    assert(goal_ids@ =~= l.goal_ids@);
    assert(candidate_ids@ =~= l.candidate_ids@);
    DefinitionSolveLink {
        def_node_id: l.def_node_id,
        goal_ids,
        candidate_ids,
        link_key: l.link_key.clone(),
        confidence: l.confidence,
    }
}

pub open spec fn same_link(a: DefinitionSolveLink, b: DefinitionSolveLink) -> bool {
    a.def_node_id == b.def_node_id && a.goal_ids@ == b.goal_ids@ && a.candidate_ids@ == b.candidate_ids@
        && a.link_key@ == b.link_key@ && a.confidence == b.confidence
}

/// The links whose node lies in `graph` (see [`links_in_graph`]).
pub fn filter_links_for_graph(links: &DefinitionSolveLinks, graph: &DefinitionGraph) -> (r: DefinitionSolveLinks)
    ensures
        r.links@.len() == links_in_graph(links.links@, graph_node_ids(*graph)).len(),
        forall|i: int|
            0 <= i < r.links@.len() ==> same_link(#[trigger] r.links@[i], links_in_graph(links.links@, graph_node_ids(*graph))[i]),
{
    let ghost ids = graph_node_ids(*graph);
    let mut out: Vec<DefinitionSolveLink> = Vec::new();
    let mut i: usize = 0;
    while i < links.links.len()
        invariant
            i <= links.links.len(),
            ids == graph_node_ids(*graph),
            out@.len() == links_in_graph(links.links@.take(i as int), ids).len(),
            forall|k: int|
                0 <= k < out@.len() ==> same_link(#[trigger] out@[k], links_in_graph(links.links@.take(i as int), ids)[k]),
        decreases links.links.len() - i,
    {
        let l = &links.links[i];
        let mut found = false;
        let mut j: usize = 0;
        while j < graph.nodes.len()
            invariant
                j <= graph.nodes.len(),
                found == exists|a: int| 0 <= a < j && (#[trigger] graph.nodes@[a]).id.0 == l.def_node_id.0,
            decreases graph.nodes.len() - j,
        {
            if graph.nodes[j].id.0 == l.def_node_id.0 {
                found = true;
            }
            j += 1;
        }
        assert(links.links@.take(i + 1).drop_last() =~= links.links@.take(i as int));
        assert(found == ids.contains(l.def_node_id.0));
        if found {
            let ghost before = out@;
            out.push(copy_link(l));
            proof {
                let lg = links_in_graph(links.links@.take(i + 1), ids);
                assert forall|k: int| 0 <= k < out@.len() implies same_link(#[trigger] out@[k], lg[k]) by {
                    if k < before.len() {
                        assert(out@[k] == before[k]);
                    }
                }
            }
        }
        i += 1;
    }
    assert(links.links@.take(i as int) =~= links.links@);
    DefinitionSolveLinks { links: out }
}


/// How many bytes of a command's output an error quotes.
pub open spec fn output_limit() -> nat {
    4000
}

/// A command's output as an error quotes it: trimmed, and cut to its first 4000 bytes with
/// `...` when longer.
pub fn trim_command_output(output: &str) -> (r: String)
    requires
        crate::tally::can_shorten(crate::text::trim(output@), output_limit(), output_limit()),
    ensures
        r@ == crate::tally::shorten_spec(crate::text::trim(output@), output_limit(), output_limit()),
{
    let t = crate::text::trim_str(output);
    crate::tally::shorten_text(t.as_str(), 4000, 4000)
}

} // verus!
