use typelude_tooling::summary_text::{is_float_text, parse_summary_text};

#[test]
fn parse_summary_text_ignores_headers_and_analysis_sections() {
    let input = r#"
view_kind=solve_analysis
tree_semantics=rustc_proof_tree
collection_basis=trace_input
trace_id=1
subject_filter=<none>
result_filter=<none>
candidate_kind_filter=<none>
max_depth_filter=<none>

subjects=1
root_goals=1
goals=2
candidates=1
max_goal_depth=1
avg_candidates_per_goal=0.50
result.ok=1
result.no_solution=1
result.ambiguous=0
result.unsupported=0
top_predicates:
1 :: TraitPredicate(...)
top_candidate_kinds:
1 :: Impl
predicate_distribution:
1 :: TraitPredicate(...)
top_roots:
RunWriter::<T as Eval> :: goal=1 result=success goals=2 candidates=1 max_depth=1 unique_predicates=2 unique_candidate_kinds=1 dominant_predicate_family=TraitPredicate dominant_candidate_family=Impl
"#;

    let summary = parse_summary_text(input).expect("summary text should parse");
    assert_eq!(summary.subjects, 1);
    assert_eq!(summary.goals, 2);
    assert_eq!(summary.top_predicates.len(), 1);
    assert_eq!(summary.top_candidate_kinds.len(), 1);
}

#[test]
fn summary_text_reads_every_figure_and_fails_on_bad_counts() {
    let input = "subjects=3\nroot_goals=2\ngoals=9\ncandidates=4\nmax_goal_depth=5\navg_candidates_per_goal=0.44\n\
                 result.ok=6\nresult.no_solution=1\nresult.ambiguous=1\nresult.unsupported=+1\ngoals=10\n\
                 top_predicates:\n2 :: AliasRelate(...)\n1 :: TraitPredicate(...)\ntop_candidate_kinds:\n4 :: Impl\n";
    let summary = parse_summary_text(input).expect("summary");
    assert_eq!(summary.subjects, 3);
    assert_eq!(summary.goals, 10);
    assert_eq!(summary.result_unsupported, 1);
    assert_eq!(summary.avg_candidates_per_goal, "0.44");
    assert_eq!(summary.top_predicates[0].label, "AliasRelate(...)");
    assert_eq!(summary.top_predicates[0].count, 2);
    assert_eq!(summary.top_candidate_kinds[0].label, "Impl");
    assert_eq!(parse_summary_text("subjects=1\nbad :: entry\n"), None);
    assert_eq!(parse_summary_text("subjects=1\n"), None);
}

#[test]
fn summary_average_must_read_as_a_float() {
    let with = |avg: &str| {
        format!(
            "subjects=1\nroot_goals=1\ngoals=2\ncandidates=1\nmax_goal_depth=1\navg_candidates_per_goal={avg}\n\
             result.ok=1\nresult.no_solution=1\nresult.ambiguous=0\nresult.unsupported=0\n"
        )
    };
    for good in ["0.50", ".5", "5.", "1e10", "-1E-3", "+2.5e+4", "inf", "+Infinity", "NaN"] {
        assert!(good.parse::<f64>().is_ok());
        assert_eq!(parse_summary_text(&with(good)).map(|s| s.avg_candidates_per_goal), Some(good.to_string()));
    }
    for bad in ["", ".", "e5", "1e", "1.2.3", "0x10", "1_0", "+", "infinit", "1e+"] {
        assert!(bad.parse::<f64>().is_err());
        assert_eq!(parse_summary_text(&with(bad)), None);
    }
}

#[test]
fn float_text_follows_the_std_grammar() {
    for text in ["0", "12.75", "-.5", "3.e2", "INF", "nan", "1e-0", "x", "..", "1.e", "--1", " 1"] {
        assert_eq!(is_float_text(text), text.parse::<f64>().is_ok(), "{text}");
    }
}
