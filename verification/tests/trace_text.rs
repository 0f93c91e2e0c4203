use typelude_tooling::ids::{CandidateId, EventId, GoalId, HookId, SubjectId, TraceId};
use typelude_tooling::strmap::StrMap;
use typelude_tooling::trace::{
    CandidateKind, CandidateResult, GoalExited, GoalResult, PredicateRepr, RunStarted, Trace, TraceEvent,
    TracePayload,
};
use typelude_tooling::trace_text::render_trace_text;

fn sample_trace() -> Trace {
    let mut trace = Trace::new(TraceId(1));
    trace.push(TraceEvent::new(
        EventId(1),
        TracePayload::RunStarted(RunStarted {
            crate_name: String::from("demo"),
            rustc_version: String::from("nightly"),
            subject_filter: None,
            max_events: 10,
            max_depth: 4,
        }),
    ));
    trace.push(TraceEvent::new(
        EventId(2),
        TracePayload::GoalExited(GoalExited {
            hook_id: HookId::TraitSolve,
            subject_id: SubjectId(1),
            goal_id: GoalId(2),
            parent_goal_id: Some(GoalId(1)),
            predicate: PredicateRepr::DebugText(String::from("T: Eval")),
            result: GoalResult::NoSolution,
            semantic_tags: Vec::new(),
        }),
    ));
    trace.push(TraceEvent::new(
        EventId(3),
        TracePayload::CandidateResult(CandidateResult {
            hook_id: HookId::TraitSolve,
            subject_id: SubjectId(1),
            goal_id: GoalId(2),
            candidate_id: CandidateId(3),
            candidate_kind: CandidateKind::Impl,
            result: GoalResult::Success,
            semantic_tags: Vec::new(),
            metadata: StrMap::new(),
        }),
    ));
    trace
}

#[test]
fn lists_one_line_per_event() {
    let text = render_trace_text(&sample_trace());
    let lines: Vec<&str> = text.lines().collect();
    assert_eq!(lines.len(), 3);
    assert_eq!(lines[0], "RunStarted :: demo");
    assert_eq!(lines[1], "GoalExited goal=2 subject=1 parent=1 :: T: Eval :: no_solution");
    assert_eq!(lines[2], "CandidateResult goal=2 cand=3 subject=1 :: Impl :: success");
}

#[test]
fn empty_trace_lists_nothing() {
    assert_eq!(render_trace_text(&Trace::new(TraceId(7))), "");
}
