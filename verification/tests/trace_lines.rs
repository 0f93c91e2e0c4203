use typelude_tooling::ids::{EventId, GoalId, HookId, NodeId, SubjectId, SubjectKind, TraceId};
use typelude_tooling::mapper::{SemanticMapper, SemanticNodeKind};
use typelude_tooling::strmap::StrMap;
use typelude_tooling::trace::{
    CandidateKind, CandidateResult, DiagnosticRecord, GoalExited, GoalResult, InfoEvent, PredicateRepr, Trace,
    TraceEvent, TracePayload,
};
use typelude_tooling::ids::CandidateId;

#[test]
fn json_lines_keep_trimmed_non_empty_lines() {
    let lines = typelude_tooling::trace::json_lines("  {\"a\":1}  \n\n\t\r\n{\"b\":2}\r\n   ");
    assert_eq!(lines, vec![String::from("{\"a\":1}"), String::from("{\"b\":2}")]);
    assert!(typelude_tooling::trace::json_lines("").is_empty());
    assert_eq!(typelude_tooling::trace::json_lines("x"), vec![String::from("x")]);
}

fn info(id: u64, message: &str) -> TraceEvent {
    TraceEvent::new(
        EventId(id),
        TracePayload::Info(InfoEvent { hook_id: None, message: String::from(message), metadata: StrMap::new() }),
    )
}

#[test]
fn parsed_lines_keep_present_events_in_order() {
    let trace = Trace::from_parsed_lines(TraceId(4), vec![Some(info(1, "a")), None, Some(info(2, "b")), None]);
    assert_eq!(trace.id, TraceId(4));
    assert_eq!(trace.events, vec![info(1, "a"), info(2, "b")]);
    assert!(Trace::from_parsed_lines(TraceId(5), vec![None]).events.is_empty());
}

#[test]
fn tooling_notices_carry_no_metadata() {
    let record = DiagnosticRecord::tooling_notice("diagnostics live elsewhere");
    assert_eq!(record.message(), "diagnostics live elsewhere");
    assert!(record.metadata().is_empty());
}

#[test]
fn mapper_reads_one_step_per_solver_event() {
    let mut trace = Trace::new(TraceId(1));
    trace.push(info(1, "ignored"));
    trace.push(TraceEvent::new(
        EventId(2),
        TracePayload::GoalExited(GoalExited {
            hook_id: HookId::TraitSolve,
            subject_id: SubjectId(1),
            goal_id: GoalId(2),
            parent_goal_id: None,
            predicate: PredicateRepr::DebugText(String::from("T: Eval")),
            result: GoalResult::Success,
            semantic_tags: Vec::new(),
        }),
    ));
    trace.push(TraceEvent::new(
        EventId(3),
        TracePayload::CandidateResult(CandidateResult {
            hook_id: HookId::TraitSolve,
            subject_id: SubjectId(1),
            goal_id: GoalId(2),
            candidate_id: CandidateId(3),
            candidate_kind: CandidateKind::AliasRelate,
            result: GoalResult::Success,
            semantic_tags: Vec::new(),
            metadata: StrMap::new(),
        }),
    ));
    let nodes = SemanticMapper::new().map_trace(&trace);
    assert_eq!(nodes.len(), 2);
    assert_eq!(nodes[0].id, NodeId(2));
    assert_eq!(nodes[0].kind, SemanticNodeKind::PrimitiveOp);
    assert_eq!(nodes[0].label, "T: Eval");
    assert_eq!(nodes[0].source_event_id, Some(EventId(2)));
    assert_eq!(nodes[1].kind, SemanticNodeKind::HelperDispatch);
    assert_eq!(nodes[1].label, "AliasRelate");
}

#[test]
fn subject_kinds_have_lower_case_names() {
    assert_eq!(SubjectKind::AssocItem.lower_name(), "associtem");
    assert_eq!(SubjectKind::Predicate.lower_name(), "predicate");
}
