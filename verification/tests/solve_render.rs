use typelude_tooling::ids::CandidateId;
use typelude_tooling::semantic::SemanticTag;
use typelude_tooling::solve::GoalTreeCandidate;
use typelude_tooling::solve_filter::SolveResultFilter;
use typelude_tooling::solve_render::{
    candidate_raw_kind, compact_candidate_detail, compact_goal_result, compact_path_segments, compact_result,
    format_metric_diff, semantic_tags_text, solve_result_filter, CompactModeArg, SolveRenderOptions, SolveResultArg,
};
use typelude_tooling::strmap::StrMap;
use typelude_tooling::trace::{CandidateKind, GoalResult};

#[test]
fn path_segments_keep_the_last_ones() {
    assert_eq!(compact_path_segments("a::b::c::d", 3), "b::c::d");
    assert_eq!(compact_path_segments("a::b", 3), "a::b");
    assert_eq!(compact_path_segments("core::ops::Add", 1), "Add");
    assert_eq!(compact_path_segments("a::::b", 2), "::b");
}

#[test]
fn results_compact_by_mode() {
    assert_eq!(compact_result("Err(NoSolution)", CompactModeArg::Off), "Err(NoSolution)");
    assert_eq!(compact_result("Err(NoSolution)", CompactModeArg::Basic), "Err(...)");
    assert_eq!(compact_result("success", CompactModeArg::Basic), "success");
    assert_eq!(compact_result("Certainty::Yes", CompactModeArg::Aggressive), "Yes");
    let long = "x".repeat(130);
    let expected = format!("{}...", "x".repeat(117));
    assert_eq!(compact_result(&long, CompactModeArg::Aggressive), expected);
}

#[test]
fn goal_results_use_their_labels() {
    assert_eq!(compact_goal_result(GoalResult::NoSolution, CompactModeArg::Aggressive), "no_solution");
    assert_eq!(compact_goal_result(GoalResult::Success, CompactModeArg::Off), "success");
}

#[test]
fn candidate_details_keep_four_segments() {
    let options = SolveRenderOptions::default();
    assert_eq!(compact_candidate_detail("a::b::c::d::e::f", options), "c::d::e::f");
    let raw = SolveRenderOptions { show_raw_kind: true, ..options };
    assert_eq!(compact_candidate_detail("a::b::c::d::e::f", raw), "a::b::c::d::e::f");
}

#[test]
fn metric_diffs_sign_their_delta() {
    assert_eq!(format_metric_diff("goals", 3, 5, 2), "goals: left=3 right=5 delta=+2");
    assert_eq!(format_metric_diff("goals", 4, 4, 0), "goals: left=4 right=4 delta=+0");
    assert_eq!(format_metric_diff("depth", 7, 4, -3), "depth: left=7 right=4 delta=-3");
}

#[test]
fn semantic_tags_join_with_commas() {
    assert_eq!(semantic_tags_text(&Vec::new()), None);
    let tags = vec![SemanticTag::EvalLike, SemanticTag::LoopLike];
    assert_eq!(semantic_tags_text(&tags), Some("eval_like,loop_like".to_string()));
}

#[test]
fn raw_kind_comes_from_metadata() {
    let mut metadata = StrMap::new();
    let mut candidate = GoalTreeCandidate {
        id: CandidateId(1),
        kind: CandidateKind::Impl,
        result: GoalResult::Success,
        semantic_tags: Vec::new(),
        metadata: StrMap::new(),
    };
    assert_eq!(candidate_raw_kind(&candidate), None);
    metadata.insert("raw_candidate_kind".to_string(), "Impl(Foo)".to_string());
    candidate.metadata = metadata;
    assert_eq!(candidate_raw_kind(&candidate).map(String::as_str), Some("Impl(Foo)"));
}

#[test]
fn result_args_map_to_filters() {
    let filter: SolveResultFilter = SolveResultArg::NoSolution.into();
    assert_eq!(filter, SolveResultFilter::NoSolution);
    let options = SolveRenderOptions::default();
    assert_eq!(options.compact, CompactModeArg::Basic);
    assert!(!options.show_raw_kind && !options.show_full_predicate);
}

#[test]
fn result_choices_become_filters() {
    assert_eq!(solve_result_filter(SolveResultArg::Success), SolveResultFilter::Success);
    assert_eq!(solve_result_filter(SolveResultArg::Ambiguous), SolveResultFilter::Ambiguous);
    assert_eq!(solve_result_filter(SolveResultArg::Unsupported), SolveResultFilter::Unsupported);
}
