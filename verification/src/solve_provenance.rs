//! Where a solve view came from, written as header lines above the view.
use vstd::prelude::*;

use crate::query::{QueryMatchKind, QueryTargetKind, match_kind_label, target_kind_label};
use crate::solve_filter::{SolveFilters, result_filter_label};
use crate::text::{copy_str, decimal, push_str, u64_text, usize_text};

verus! {

/// Which solve view a header introduces.
#[derive(Debug, Clone, Copy, PartialEq, Eq, Structural)]
pub enum SolveViewKind {
    Tree,
    Summary,
    Analysis,
}

pub open spec fn view_kind_label(k: SolveViewKind) -> Seq<char> {
    match k {
        SolveViewKind::Tree => "solve_tree"@,
        SolveViewKind::Summary => "solve_summary"@,
        SolveViewKind::Analysis => "solve_analysis"@,
    }
}

impl SolveViewKind {
    pub fn label(self) -> (r: &'static str)
        ensures
            r@ == view_kind_label(self),
    {
        match self {
            SolveViewKind::Tree => "solve_tree",
            SolveViewKind::Summary => "solve_summary",
            SolveViewKind::Analysis => "solve_analysis",
        }
    }
}

/// What the nesting of a solve tree means.
#[derive(Debug, Clone, Copy, PartialEq, Eq, Structural)]
pub enum SolveTreeSemantics {
    RustcProofTree,
}

pub open spec fn tree_semantics_label(k: SolveTreeSemantics) -> Seq<char> {
    match k {
        SolveTreeSemantics::RustcProofTree => "rustc_proof_tree"@,
    }
}

impl SolveTreeSemantics {
    pub fn label(self) -> (r: &'static str)
        ensures
            r@ == tree_semantics_label(self),
    {
        match self {
            SolveTreeSemantics::RustcProofTree => "rustc_proof_tree",
        }
    }
}

/// How the goals of a solve view were collected.
#[derive(Debug, Clone, Copy, PartialEq, Eq, Structural)]
pub enum SolveCollectionBasis {
    TraceInput,
    OwnerExplicitPredicates,
}

pub open spec fn collection_basis_label(k: SolveCollectionBasis) -> Seq<char> {
    match k {
        SolveCollectionBasis::TraceInput => "trace_input"@,
        SolveCollectionBasis::OwnerExplicitPredicates => "owner_explicit_predicates"@,
    }
}

impl SolveCollectionBasis {
    pub fn label(self) -> (r: &'static str)
        ensures
            r@ == collection_basis_label(self),
    {
        match self {
            SolveCollectionBasis::TraceInput => "trace_input",
            SolveCollectionBasis::OwnerExplicitPredicates => "owner_explicit_predicates",
        }
    }
}

/// The provenance of a solve view: the view, the query and the filters it was made with.
#[derive(Debug, Clone, PartialEq, Eq)]
pub struct SolveProvenance {
    pub view_kind: SolveViewKind,
    pub tree_semantics: SolveTreeSemantics,
    pub collection_basis: SolveCollectionBasis,
    pub trace_id: Option<u64>,
    pub query_kind: Option<QueryTargetKind>,
    pub query_owner: Option<String>,
    pub query_match: Option<QueryMatchKind>,
    pub input_path: Option<String>,
    pub manifest_path: Option<String>,
    pub filters: SolveFilters,
}

impl Default for SolveProvenance {
    fn default() -> (r: Self)
        ensures
            r.view_kind == SolveViewKind::Tree,
            r.tree_semantics == SolveTreeSemantics::RustcProofTree,
            r.collection_basis == SolveCollectionBasis::TraceInput,
            r.trace_id is None,
            r.query_kind is None,
            r.query_owner is None,
            r.query_match is None,
            r.input_path is None,
            r.manifest_path is None,
            r.filters.result is None,
            r.filters.candidate_kind is None,
            r.filters.max_depth is None,
            r.filters.subject is None,
    {
        SolveProvenance {
            view_kind: SolveViewKind::Tree,
            tree_semantics: SolveTreeSemantics::RustcProofTree,
            collection_basis: SolveCollectionBasis::TraceInput,
            trace_id: None,
            query_kind: None,
            query_owner: None,
            query_match: None,
            input_path: None,
            manifest_path: None,
            filters: SolveFilters::default(),
        }
    }
}

/// `key` followed by the value, or nothing when there is no value.
pub open spec fn optional_line(key: Seq<char>, value: Option<Seq<char>>) -> Seq<Seq<char>> {
    match value {
        Some(v) => seq![key + v],
        None => Seq::empty(),
    }
}

/// The value's text, or `<none>`.
pub open spec fn or_none(value: Option<Seq<char>>) -> Seq<char> {
    match value {
        Some(v) => v,
        None => "<none>"@,
    }
}

pub open spec fn opt_string(o: Option<String>) -> Option<Seq<char>> {
    match o {
        Some(s) => Some(s@),
        None => None,
    }
}

/// The header lines of a solve view: the view kind, tree semantics, collection basis and subject
/// semantics; then the trace id (the provenance's own, else `fallback_trace_id`), the query kind,
/// owner and match, the input and manifest paths, each where present; then the four filters,
/// each `<none>` when unset; then an empty line.
pub open spec fn header_lines_spec(p: SolveProvenance, fallback_trace_id: Option<u64>) -> Seq<Seq<char>> {
    seq![
        "view_kind="@ + view_kind_label(p.view_kind),
        "tree_semantics="@ + tree_semantics_label(p.tree_semantics),
        "collection_basis="@ + collection_basis_label(p.collection_basis),
        "subject_semantics=collection_unit"@,
    ] + trace_line_spec(p, fallback_trace_id) + query_kind_line_spec(p) + optional_line(
        "query_owner="@,
        opt_string(p.query_owner),
    ) + query_match_line_spec(p) + optional_line("input_path="@, opt_string(p.input_path)) + optional_line(
        "manifest_path="@,
        opt_string(p.manifest_path),
    ) + filter_lines_spec(p)
}

/// `key` followed by `value`.
fn key_value(key: &str, value: &str) -> (r: String)
    ensures
        r@ == key@ + value@,
{
    let mut r = copy_str(key);
    push_str(&mut r, value);
    r
}

fn push_line(lines: &mut Vec<String>, key: &str, value: &str)
    ensures
        line_texts(final(lines)@) == line_texts(old(lines)@).push(key@ + value@),
{
    let ghost before = lines@;
    lines.push(key_value(key, value));
    assert(line_texts(lines@) =~= line_texts(before).push(key@ + value@));
}

/// The texts of a vector of strings.
pub open spec fn line_texts(v: Seq<String>) -> Seq<Seq<char>> {
    v.map_values(|s: String| s@)
}

fn push_text(lines: &mut Vec<String>, text: &str)
    ensures
        line_texts(final(lines)@) == line_texts(old(lines)@).push(text@),
{
    let ghost before = lines@;
    lines.push(copy_str(text));
    assert(line_texts(lines@) =~= line_texts(before).push(text@));
}

/// The trace id line: the provenance's own id, else the fallback, where either is present.
pub open spec fn trace_line_spec(p: SolveProvenance, fallback_trace_id: Option<u64>) -> Seq<Seq<char>> {
    let trace_id = if p.trace_id is Some {
        p.trace_id
    } else {
        fallback_trace_id
    };
    optional_line("trace_id="@, match trace_id {
        Some(t) => Some(decimal(t as nat)),
        None => None,
    })
}

pub open spec fn query_kind_line_spec(p: SolveProvenance) -> Seq<Seq<char>> {
    optional_line("query_kind="@, match p.query_kind {
        Some(k) => Some(target_kind_label(k)),
        None => None,
    })
}

pub open spec fn query_match_line_spec(p: SolveProvenance) -> Seq<Seq<char>> {
    optional_line("query_match="@, match p.query_match {
        Some(k) => Some(match_kind_label(k)),
        None => None,
    })
}

/// The filter lines and the closing empty line.
pub open spec fn filter_lines_spec(p: SolveProvenance) -> Seq<Seq<char>> {
    seq![
        "subject_filter="@ + or_none(opt_string(p.filters.subject)),
        "result_filter="@ + or_none(match p.filters.result {
            Some(r) => Some(result_filter_label(r)),
            None => None,
        }),
        "candidate_kind_filter="@ + or_none(opt_string(p.filters.candidate_kind)),
        "max_depth_filter="@ + or_none(match p.filters.max_depth {
            Some(d) => Some(decimal(d as nat)),
            None => None,
        }),
        Seq::empty(),
    ]
}

fn push_optional(lines: &mut Vec<String>, key: &str, value: &Option<String>)
    ensures
        line_texts(final(lines)@) == line_texts(old(lines)@) + optional_line(key@, opt_string(*value)),
{
    let ghost before = line_texts(lines@);
    if let Some(v) = value {
        push_line(lines, key, v.as_str());
    }
    assert(line_texts(lines@) =~= before + optional_line(key@, opt_string(*value)));
}

impl SolveProvenance {
    fn push_optional_lines(&self, lines: &mut Vec<String>, fallback_trace_id: Option<u64>)
        ensures
            line_texts(final(lines)@) == line_texts(old(lines)@) + trace_line_spec(*self, fallback_trace_id)
                + query_kind_line_spec(*self) + optional_line("query_owner="@, opt_string(self.query_owner))
                + query_match_line_spec(*self) + optional_line("input_path="@, opt_string(self.input_path))
                + optional_line("manifest_path="@, opt_string(self.manifest_path)),
    {
        let ghost start = line_texts(lines@);
        let trace_id = match self.trace_id {
            Some(t) => Some(t),
            None => fallback_trace_id,
        };
        let trace_text = match trace_id {
            Some(t) => Some(u64_text(t)),
            None => None,
        };
        let ghost t_part = optional_line("trace_id="@, opt_string(trace_text));
        assert(t_part == trace_line_spec(*self, fallback_trace_id));
        push_optional(lines, "trace_id=", &trace_text);
        let kind_text = match self.query_kind {
            Some(k) => Some(copy_str(k.label())),
            None => None,
        };
        let ghost k_part = optional_line("query_kind="@, opt_string(kind_text));
        assert(k_part == query_kind_line_spec(*self));
        push_optional(lines, "query_kind=", &kind_text);
        push_optional(lines, "query_owner=", &self.query_owner);
        let match_text = match self.query_match {
            Some(m) => Some(copy_str(m.label())),
            None => None,
        };
        let ghost m_part = optional_line("query_match="@, opt_string(match_text));
        assert(m_part == query_match_line_spec(*self));
        push_optional(lines, "query_match=", &match_text);
        push_optional(lines, "input_path=", &self.input_path);
        push_optional(lines, "manifest_path=", &self.manifest_path);

    }

    fn push_filter_lines(&self, lines: &mut Vec<String>)
        ensures
            line_texts(final(lines)@) == line_texts(old(lines)@) + filter_lines_spec(*self),
    {
        let ghost start = line_texts(lines@);
        match &self.filters.subject {
            Some(s) => push_line(lines, "subject_filter=", s.as_str()),
            None => push_line(lines, "subject_filter=", "<none>"),
        }
        match self.filters.result {
            Some(r) => push_line(lines, "result_filter=", r.label()),
            None => push_line(lines, "result_filter=", "<none>"),
        }
        match &self.filters.candidate_kind {
            Some(s) => push_line(lines, "candidate_kind_filter=", s.as_str()),
            None => push_line(lines, "candidate_kind_filter=", "<none>"),
        }
        match self.filters.max_depth {
            Some(d) => {
                let text = usize_text(d);
                push_line(lines, "max_depth_filter=", text.as_str());
            },
            None => push_line(lines, "max_depth_filter=", "<none>"),
        }
        let ghost before_blank = lines@;
        lines.push(String::new());
        assert(line_texts(lines@) =~= line_texts(before_blank).push(Seq::empty()));
        assert(line_texts(lines@) =~= start + filter_lines_spec(*self));
    }

    /// The header lines of the view: see [`header_lines_spec`].
    pub fn header_lines(&self, fallback_trace_id: Option<u64>) -> (r: Vec<String>)
        ensures
            line_texts(r@) == header_lines_spec(*self, fallback_trace_id),
    {
        let mut lines: Vec<String> = Vec::new();
        assert(line_texts(lines@) =~= Seq::<Seq<char>>::empty());
        push_line(&mut lines, "view_kind=", self.view_kind.label());
        push_line(&mut lines, "tree_semantics=", self.tree_semantics.label());
        push_line(&mut lines, "collection_basis=", self.collection_basis.label());
        push_text(&mut lines, "subject_semantics=collection_unit");
        self.push_optional_lines(&mut lines, fallback_trace_id);
        self.push_filter_lines(&mut lines);
        lines
    }
}

} // verus!
