use typelude_tooling::lowering::{
    lower_candidate_kind, lower_goal_result, lower_predicate_repr, semantic_tags_for_candidate,
    semantic_tags_for_predicate,
};
use typelude_tooling::semantic::SemanticTag;
use typelude_tooling::trace::{CandidateKind, GoalResult, PredicateRepr};

#[test]
fn lowers_alias_relate_predicate() {
    let predicate = lower_predicate_repr("AliasRelate(Foo, Bar)");
    assert_eq!(
        predicate,
        PredicateRepr::AliasRelate { lhs: String::from("Foo"), rhs: String::from("Bar") }
    );
}

#[test]
fn lowers_candidate_kind_from_debug_text() {
    assert_eq!(lower_candidate_kind("ParamEnv"), CandidateKind::ParamEnv);
    assert_eq!(lower_candidate_kind("MyImplCandidate"), CandidateKind::Impl);
}

#[test]
fn lowers_goal_result_from_debug_text() {
    assert_eq!(lower_goal_result("NoSolution"), GoalResult::NoSolution);
    assert_eq!(lower_goal_result("YES"), GoalResult::Success);
}

#[test]
fn semantic_tags_detect_typelude_patterns() {
    let predicate = PredicateRepr::DebugText(String::from("EGet<Arr, Key>"));
    assert!(semantic_tags_for_predicate(&predicate).contains(&SemanticTag::LookupLike));
    assert_eq!(semantic_tags_for_candidate(&CandidateKind::AliasRelate), vec![SemanticTag::HelperDispatchLike]);
}

#[test]
fn known_candidate_labels_lower_back_to_their_kind() {
    for kind in [
        CandidateKind::ParamEnv,
        CandidateKind::Impl,
        CandidateKind::Builtin,
        CandidateKind::AliasRelate,
        CandidateKind::Normalize,
    ] {
        assert_eq!(lower_candidate_kind(&kind.label()), kind);
    }
}

#[test]
fn two_sided_predicates_read_back_from_their_debug_text() {
    let alias = PredicateRepr::AliasRelate {
        lhs: String::from("<T as Apply<(A, B)>>::Output"),
        rhs: String::from("Out, More"),
    };
    assert_eq!(lower_predicate_repr(&alias.debug_text()), alias);
    let normalizes =
        PredicateRepr::NormalizesTo { alias: String::from("Alias<X>"), target: String::from("Target") };
    assert_eq!(lower_predicate_repr(&normalizes.debug_text()), normalizes);
    let empty = PredicateRepr::AliasRelate { lhs: String::new(), rhs: String::new() };
    assert_eq!(lower_predicate_repr(&empty.debug_text()), empty);
}

#[test]
fn lowering_a_candidate_label_gives_it_back() {
    for s in ["ParamEnv", "Impl", "Builtin", "AliasRelate", "Normalize", "UserCandidate(Foo)", ""] {
        assert_eq!(lower_candidate_kind(s).label(), s);
    }
}
