use typelude_tooling::ids::{CandidateId, GoalId, SubjectId, SubjectKind, TraceId};
use typelude_tooling::semantic::SemanticTag;
use typelude_tooling::solve::{GoalTree, GoalTreeCandidate, GoalTreeGoal, GoalTreeSubject};
use typelude_tooling::solve_filter::{filter_goal_tree, SolveFilters, SolveResultFilter};
use typelude_tooling::solve_provenance::{
    SolveCollectionBasis, SolveProvenance, SolveTreeSemantics, SolveViewKind,
};
use typelude_tooling::query::{QueryMatchKind, QueryTargetKind};
use typelude_tooling::strmap::StrMap;
use typelude_tooling::trace::{CandidateKind, GoalResult, PredicateRepr};

fn meta(pairs: &[(&str, &str)]) -> StrMap {
    let mut m = StrMap::new();
    for (k, v) in pairs {
        m.insert(String::from(*k), String::from(*v));
    }
    m
}

fn filter_sample_tree() -> GoalTree {
    GoalTree {
        trace_id: TraceId::new(1),
        subjects: vec![GoalTreeSubject {
            id: SubjectId::new(1),
            kind: SubjectKind::Predicate,
            label: String::from("RunWriter"),
            metadata: meta(&[("owner_path", "typelude_vm::core::writer_t::RunWriter")]),
            roots: vec![GoalTreeGoal {
                id: GoalId::new(1),
                parent_goal_id: None,
                predicate: PredicateRepr::DebugText(String::from("<T as Eval>")),
                result: GoalResult::NoSolution,
                depth: 0,
                semantic_tags: vec![SemanticTag::EvalLike],
                candidates: vec![GoalTreeCandidate {
                    id: CandidateId::new(1),
                    kind: CandidateKind::Impl,
                    result: GoalResult::Success,
                    semantic_tags: Vec::new(),
                    metadata: StrMap::new(),
                }],
                children: vec![],
            }],
        }],
    }
}

fn view_sample_tree() -> GoalTree {
    GoalTree {
        trace_id: TraceId::new(1),
        subjects: vec![GoalTreeSubject {
            id: SubjectId::new(1),
            kind: SubjectKind::Predicate,
            label: String::from("typelude_vm::core::writer_t::RunWriter"),
            metadata: meta(&[
                ("owner_path", "typelude_vm::core::writer_t::RunWriter"),
                ("predicate_index", "0"),
            ]),
            roots: vec![GoalTreeGoal {
                id: GoalId::new(1),
                parent_goal_id: None,
                predicate: PredicateRepr::DebugText(String::from(
                    "Binder { value: TraitPredicate(<very::long::path::T as Eval>, polarity:Positive), bound_vars: [] }",
                )),
                result: GoalResult::NoSolution,
                depth: 0,
                semantic_tags: vec![SemanticTag::EvalLike],
                candidates: vec![GoalTreeCandidate {
                    id: CandidateId::new(1),
                    kind: CandidateKind::Unknown(String::from("TraitCandidate { source: ParamEnv(ImplSource) }")),
                    result: GoalResult::Success,
                    semantic_tags: vec![SemanticTag::HelperDispatchLike],
                    metadata: meta(&[(
                        "raw_candidate_kind",
                        "TraitCandidate { source: ParamEnv(ImplSource), detail: Some(LongerReason) }",
                    )]),
                }],
                children: vec![GoalTreeGoal {
                    id: GoalId::new(2),
                    parent_goal_id: Some(GoalId::new(1)),
                    predicate: PredicateRepr::DebugText(String::from("NormalizesTo(very::long::assoc::Type)")),
                    result: GoalResult::Success,
                    depth: 1,
                    semantic_tags: Vec::new(),
                    candidates: vec![],
                    children: vec![],
                }],
            }],
        }],
    }
}

#[test]
fn solve_filter_filters_tree_by_result() {
    let filtered = filter_goal_tree(
        &filter_sample_tree(),
        &SolveFilters { result: Some(SolveResultFilter::NoSolution), ..SolveFilters::default() },
    );
    assert_eq!(filtered.subjects.len(), 1);
    assert_eq!(filtered.subjects[0].roots.len(), 1);
}

#[test]
fn filters_tree_by_subject_metadata() {
    let filtered = filter_goal_tree(
        &filter_sample_tree(),
        &SolveFilters { subject: Some(String::from("writer_t")), ..SolveFilters::default() },
    );
    assert_eq!(filtered.subjects.len(), 1);
}

#[test]
fn solve_view_filters_tree_by_result() {
    let tree = view_sample_tree();
    let filtered = filter_goal_tree(
        &tree,
        &SolveFilters { result: Some(SolveResultFilter::NoSolution), ..SolveFilters::default() },
    );
    assert_eq!(filtered.subjects.len(), 1);
    assert_eq!(filtered.subjects[0].roots.len(), 1);
}

#[test]
fn filters_drop_what_nothing_keeps() {
    let tree = view_sample_tree();
    let by_kind = filter_goal_tree(
        &tree,
        &SolveFilters { candidate_kind: Some(String::from("PARAMENV")), ..SolveFilters::default() },
    );
    assert_eq!(by_kind.subjects[0].roots[0].candidates.len(), 1);
    assert_eq!(by_kind.subjects[0].roots[0].children.len(), 0);
    let none = filter_goal_tree(
        &tree,
        &SolveFilters { subject: Some(String::from("nothing-like-this")), ..SolveFilters::default() },
    );
    assert_eq!(none.subjects.len(), 0);
    let shallow = filter_goal_tree(&tree, &SolveFilters { max_depth: Some(0), ..SolveFilters::default() });
    assert_eq!(shallow.subjects[0].roots[0].children.len(), 0);
    let ambiguous = filter_goal_tree(
        &tree,
        &SolveFilters { result: Some(SolveResultFilter::Ambiguous), ..SolveFilters::default() },
    );
    assert_eq!(ambiguous.subjects.len(), 0);
}

#[test]
fn filtering_twice_changes_nothing() {
    let filters = SolveFilters { result: Some(SolveResultFilter::Success), ..SolveFilters::default() };
    let once = filter_goal_tree(&view_sample_tree(), &filters);
    let twice = filter_goal_tree(&once, &filters);
    assert_eq!(once.subjects.len(), twice.subjects.len());
    assert_eq!(once.subjects[0].roots[0].children.len(), twice.subjects[0].roots[0].children.len());
    assert_eq!(once.subjects[0].roots[0].id, twice.subjects[0].roots[0].id);
    let unfiltered = filter_goal_tree(&view_sample_tree(), &SolveFilters::default());
    assert_eq!(unfiltered.subjects[0].roots[0].children.len(), 1);
    assert_eq!(unfiltered.subjects[0].roots[0].candidates.len(), 1);
}

#[test]
fn result_filter_labels_and_matches() {
    assert_eq!(SolveResultFilter::Success.label(), "ok");
    assert_eq!(SolveResultFilter::NoSolution.label(), "no_solution");
    assert!(SolveResultFilter::Unsupported.matches(GoalResult::Error));
    assert!(!SolveResultFilter::Success.matches(GoalResult::Ambiguous));
}

#[test]
fn renders_stable_header_lines() {
    let lines = SolveProvenance {
        view_kind: SolveViewKind::Analysis,
        tree_semantics: SolveTreeSemantics::RustcProofTree,
        collection_basis: SolveCollectionBasis::OwnerExplicitPredicates,
        trace_id: Some(1),
        query_kind: Some(QueryTargetKind::ImplOwner),
        query_owner: Some(String::from("array::Get")),
        query_match: Some(QueryMatchKind::Exact),
        manifest_path: Some(String::from("crates/typelude-col/Cargo.toml")),
        filters: SolveFilters { result: Some(SolveResultFilter::Unsupported), ..SolveFilters::default() },
        ..SolveProvenance::default()
    }
    .header_lines(None);

    assert!(lines.contains(&String::from("view_kind=solve_analysis")));
    assert!(lines.contains(&String::from("query_kind=impl")));
    assert!(lines.contains(&String::from("query_match=exact")));
    assert!(lines.contains(&String::from("result_filter=unsupported")));
}

#[test]
fn header_lines_in_order_with_fallback_trace() {
    let lines = SolveProvenance::default().header_lines(Some(7));
    assert_eq!(
        lines,
        vec![
            String::from("view_kind=solve_tree"),
            String::from("tree_semantics=rustc_proof_tree"),
            String::from("collection_basis=trace_input"),
            String::from("subject_semantics=collection_unit"),
            String::from("trace_id=7"),
            String::from("subject_filter=<none>"),
            String::from("result_filter=<none>"),
            String::from("candidate_kind_filter=<none>"),
            String::from("max_depth_filter=<none>"),
            String::new(),
        ]
    );
    let own = SolveProvenance {
        trace_id: Some(3),
        filters: SolveFilters { max_depth: Some(12), ..SolveFilters::default() },
        ..SolveProvenance::default()
    }
    .header_lines(Some(7));
    assert!(own.contains(&String::from("trace_id=3")));
    assert!(own.contains(&String::from("max_depth_filter=12")));
}
