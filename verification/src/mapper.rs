//! Reading a trace as a sequence of semantic steps.
use vstd::prelude::*;

use crate::ids::{EventId, NodeId};
use crate::naming::{compress_spec, compress_symbol_name};
use crate::semantic::SemanticTag;
use crate::strmap::StrMap;
use crate::text::{seq_contains, str_contains, str_eq};
use crate::trace::{
    CandidateKind, CandidateKindView, PredicateRepr, PredicateView, Trace, TraceEvent, TracePayload, candidate_label,
    predicate_family_name, predicate_text,
};

verus! {

/// What a semantic step does.
#[derive(Debug, Clone, Copy, PartialEq, Eq, Structural)]
pub enum SemanticNodeKind {
    Eval,
    Apply,
    If,
    While,
    MapEach,
    Get,
    PrimitiveOp,
    HelperDispatch,
    VmOp,
    VmStep,
}

/// A semantic step read from one trace event.
#[derive(Debug, Clone, PartialEq, Eq)]
pub struct SemanticNode {
    pub id: NodeId,
    pub kind: SemanticNodeKind,
    pub label: String,
    pub source_event_id: Option<EventId>,
    pub metadata: StrMap,
}

/// The mathematical value of a [`SemanticNode`].
pub struct SemanticNodeView {
    pub id: NodeId,
    pub kind: SemanticNodeKind,
    pub label: Seq<char>,
    pub source_event_id: Option<EventId>,
    pub metadata: Seq<(Seq<char>, Seq<char>)>,
}

impl View for SemanticNode {
    type V = SemanticNodeView;

    open spec fn view(&self) -> SemanticNodeView {
        SemanticNodeView {
            id: self.id,
            kind: self.kind,
            label: self.label@,
            source_event_id: self.source_event_id,
            metadata: self.metadata@,
        }
    }
}

pub open spec fn semantic_views(s: Seq<SemanticNode>) -> Seq<SemanticNodeView> {
    s.map_values(|n: SemanticNode| n@)
}

/// The step a goal stands for: by its tags, in this order of precedence, then by its predicate's
/// text (a `Step`) and form (raw debug text).
pub open spec fn kind_from_tags(tags: Seq<SemanticTag>, p: PredicateView) -> SemanticNodeKind {
    if tags.contains(SemanticTag::BranchLike) {
        SemanticNodeKind::If
    } else if tags.contains(SemanticTag::LoopLike) {
        SemanticNodeKind::While
    } else if tags.contains(SemanticTag::MapLike) {
        SemanticNodeKind::MapEach
    } else if tags.contains(SemanticTag::LookupLike) {
        SemanticNodeKind::Get
    } else if tags.contains(SemanticTag::ApplyLike) {
        SemanticNodeKind::Apply
    } else if tags.contains(SemanticTag::HelperDispatchLike) {
        SemanticNodeKind::HelperDispatch
    } else if tags.contains(SemanticTag::VmOpLike) {
        SemanticNodeKind::VmOp
    } else if seq_contains(predicate_text(p), "Step"@) {
        SemanticNodeKind::VmStep
    } else if predicate_family_name(p) == "DebugText"@ {
        SemanticNodeKind::PrimitiveOp
    } else {
        SemanticNodeKind::Eval
    }
}

/// The step a candidate stands for, by its kind.
pub open spec fn kind_of_candidate(k: CandidateKindView) -> SemanticNodeKind {
    match k {
        CandidateKindView::AliasRelate => SemanticNodeKind::HelperDispatch,
        CandidateKindView::Normalize => SemanticNodeKind::Eval,
        CandidateKindView::Unknown(t) => if seq_contains(t, "Op"@) {
            SemanticNodeKind::VmOp
        } else if seq_contains(t, "Step"@) {
            SemanticNodeKind::VmStep
        } else {
            SemanticNodeKind::PrimitiveOp
        },
        _ => SemanticNodeKind::Eval,
    }
}

/// The step read from an event, if the event stands for one: its kind, the text its label is
/// shortened from, and its metadata. Run boundaries and info events stand for none.
pub open spec fn event_step(p: TracePayload) -> Option<(SemanticNodeKind, Seq<char>, Seq<(Seq<char>, Seq<char>)>)> {
    match p {
        TracePayload::RunStarted(..) => None,
        TracePayload::RunFinished(..) => None,
        TracePayload::Info(..) => None,
        TracePayload::SubjectDiscovered(d) => Some((SemanticNodeKind::Eval, d.label@, d.metadata@)),
        TracePayload::GoalDiscovered(d) => Some((kind_from_tags(d.semantic_tags@, d.predicate@), predicate_text(d.predicate@), Seq::empty())),
        TracePayload::GoalEntered(d) => Some((kind_from_tags(d.semantic_tags@, d.predicate@), predicate_text(d.predicate@), Seq::empty())),
        TracePayload::GoalExited(d) => Some((kind_from_tags(d.semantic_tags@, d.predicate@), predicate_text(d.predicate@), Seq::empty())),
        TracePayload::CandidateDiscovered(d) => Some((kind_of_candidate(d.candidate_kind@), candidate_label(d.candidate_kind@), d.metadata@)),
        TracePayload::CandidateTried(d) => Some((kind_of_candidate(d.candidate_kind@), candidate_label(d.candidate_kind@), d.metadata@)),
        TracePayload::CandidateResult(d) => Some((kind_of_candidate(d.candidate_kind@), candidate_label(d.candidate_kind@), d.metadata@)),
        TracePayload::DiagnosticEmitted(d) => Some((SemanticNodeKind::HelperDispatch, d.record.message@, d.record.metadata@)),
        TracePayload::RelationDeclared(d) => Some((SemanticNodeKind::PrimitiveOp, d.relation@, Seq::empty())),
        TracePayload::ErrorRaised(d) => Some((SemanticNodeKind::PrimitiveOp, d.message@, Seq::empty())),
    }
}

/// The steps of a sequence of events, in order: each event that stands for a step gives a node
/// numbered like the event, labelled with the shortened text, and pointing back at the event.
pub open spec fn map_events(events: Seq<TraceEvent>) -> Seq<SemanticNodeView>
    decreases events.len(),
{
    if events.len() == 0 {
        Seq::empty()
    } else {
        let rest = map_events(events.drop_last());
        let e = events.last();
        match event_step(e.payload) {
            Some((kind, text, metadata)) => rest.push(
                SemanticNodeView {
                    id: NodeId(e.id.0),
                    kind,
                    label: compress_spec(text),
                    source_event_id: Some(e.id),
                    metadata,
                },
            ),
            None => rest,
        }
    }
}

/// A goal's step follows its tags by precedence: a branch tag makes it a branch; otherwise a
/// loop tag a loop; otherwise a map tag a map; otherwise a lookup tag a lookup; otherwise an
/// apply tag an application; otherwise a helper tag a helper dispatch; otherwise a VM-op tag a
/// VM op; an untagged goal whose predicate text names a `Step` is a VM step.
pub proof fn goal_steps_follow_tag_precedence(tags: Seq<SemanticTag>, p: PredicateView)
    ensures
        tags.contains(SemanticTag::BranchLike) ==> kind_from_tags(tags, p) == SemanticNodeKind::If,
        !tags.contains(SemanticTag::BranchLike) && tags.contains(SemanticTag::LoopLike) ==> kind_from_tags(tags, p)
            == SemanticNodeKind::While,
        !tags.contains(SemanticTag::BranchLike) && !tags.contains(SemanticTag::LoopLike) && tags.contains(
            SemanticTag::MapLike,
        ) ==> kind_from_tags(tags, p) == SemanticNodeKind::MapEach,
        !tags.contains(SemanticTag::BranchLike) && !tags.contains(SemanticTag::LoopLike) && !tags.contains(
            SemanticTag::MapLike,
        ) && tags.contains(SemanticTag::LookupLike) ==> kind_from_tags(tags, p) == SemanticNodeKind::Get,
        !tags.contains(SemanticTag::BranchLike) && !tags.contains(SemanticTag::LoopLike) && !tags.contains(
            SemanticTag::MapLike,
        ) && !tags.contains(SemanticTag::LookupLike) && tags.contains(SemanticTag::ApplyLike) ==> kind_from_tags(tags, p)
            == SemanticNodeKind::Apply,
        !tags.contains(SemanticTag::BranchLike) && !tags.contains(SemanticTag::LoopLike) && !tags.contains(
            SemanticTag::MapLike,
        ) && !tags.contains(SemanticTag::LookupLike) && !tags.contains(SemanticTag::ApplyLike) && tags.contains(
            SemanticTag::HelperDispatchLike,
        ) ==> kind_from_tags(tags, p) == SemanticNodeKind::HelperDispatch,
        !tags.contains(SemanticTag::BranchLike) && !tags.contains(SemanticTag::LoopLike) && !tags.contains(
            SemanticTag::MapLike,
        ) && !tags.contains(SemanticTag::LookupLike) && !tags.contains(SemanticTag::ApplyLike) && !tags.contains(
            SemanticTag::HelperDispatchLike,
        ) && tags.contains(SemanticTag::VmOpLike) ==> kind_from_tags(tags, p) == SemanticNodeKind::VmOp,
        tags.len() == 0 && seq_contains(predicate_text(p), "Step"@) ==> kind_from_tags(tags, p) == SemanticNodeKind::VmStep,
{
}

/// A candidate's step follows its kind: an alias relation is a helper dispatch, a parameter-env,
/// impl, builtin or normalize candidate an evaluation, and an unknown kind a VM op when its text
/// names `Op`, else a VM step when it names `Step`, else a primitive operation.
pub proof fn candidate_steps_follow_kind(k: CandidateKindView)
    ensures
        k == CandidateKindView::AliasRelate ==> kind_of_candidate(k) == SemanticNodeKind::HelperDispatch,
        (k == CandidateKindView::ParamEnv || k == CandidateKindView::Impl || k == CandidateKindView::Builtin || k
            == CandidateKindView::Normalize) ==> kind_of_candidate(k) == SemanticNodeKind::Eval,
        k matches CandidateKindView::Unknown(t) ==> (seq_contains(t, "Op"@) ==> kind_of_candidate(k) == SemanticNodeKind::VmOp)
            && (!seq_contains(t, "Op"@) && seq_contains(t, "Step"@) ==> kind_of_candidate(k) == SemanticNodeKind::VmStep)
            && (!seq_contains(t, "Op"@) && !seq_contains(t, "Step"@) ==> kind_of_candidate(k) == SemanticNodeKind::PrimitiveOp),
{
}

/// An event stands for a solver step unless it marks a run's start or end or carries
/// information only.
pub open spec fn is_solver_event(e: TraceEvent) -> bool {
    !(e.payload is RunStarted || e.payload is RunFinished || e.payload is Info)
}

/// The number of solver events.
pub open spec fn solver_event_count(events: Seq<TraceEvent>) -> nat
    decreases events.len(),
{
    if events.len() == 0 {
        0
    } else {
        solver_event_count(events.drop_last()) + if is_solver_event(events.last()) {
            1nat
        } else {
            0nat
        }
    }
}

/// Mapping a trace gives one step per solver event and none for the others; each step is
/// numbered like, and points back at, a solver event of the trace.
pub proof fn one_step_per_solver_event(events: Seq<TraceEvent>)
    ensures
        map_events(events).len() == solver_event_count(events),
        forall|i: int|
            0 <= i < map_events(events).len() ==> exists|j: int|
                0 <= j < events.len() && is_solver_event(events[j]) && (#[trigger] map_events(events)[i]).source_event_id
                    == Some(events[j].id) && map_events(events)[i].id == NodeId(events[j].id.0),
    decreases events.len(),
{
    if events.len() > 0 {
        let d = events.drop_last();
        one_step_per_solver_event(d);
        let e = events.last();
        assert(event_step(e.payload) is Some <==> is_solver_event(e));
        let m = map_events(events);
        let md = map_events(d);
        assert forall|i: int| 0 <= i < m.len() implies exists|j: int|
            0 <= j < events.len() && is_solver_event(events[j]) && (#[trigger] m[i]).source_event_id == Some(events[j].id)
                && m[i].id == NodeId(events[j].id.0) by {
            if i < md.len() {
                assert(m[i] == md[i]);
                let j = choose|j: int|
                    0 <= j < d.len() && is_solver_event(d[j]) && md[i].source_event_id == Some(d[j].id) && md[i].id
                        == NodeId(d[j].id.0);
                assert(events[j] == d[j]);
            } else {
                assert(events[events.len() - 1] == e);
            }
        }
    }
}

fn has_tag(tags: &Vec<SemanticTag>, t: SemanticTag) -> (b: bool)
    ensures
        b == tags@.contains(t),
{
    let mut i: usize = 0;
    while i < tags.len()
        invariant
            i <= tags.len(),
            forall|j: int| 0 <= j < i ==> tags@[j] != t,
        decreases tags.len() - i,
    {
        if tags[i] == t {
            return true;
        }
        i += 1;
    }
    false
}

fn classify_semantic_kind_from_tags(tags: &Vec<SemanticTag>, predicate: &PredicateRepr) -> (k: SemanticNodeKind)
    ensures
        k == kind_from_tags(tags@, predicate@),
{
    if has_tag(tags, SemanticTag::BranchLike) {
        SemanticNodeKind::If
    } else if has_tag(tags, SemanticTag::LoopLike) {
        SemanticNodeKind::While
    } else if has_tag(tags, SemanticTag::MapLike) {
        SemanticNodeKind::MapEach
    } else if has_tag(tags, SemanticTag::LookupLike) {
        SemanticNodeKind::Get
    } else if has_tag(tags, SemanticTag::ApplyLike) {
        SemanticNodeKind::Apply
    } else if has_tag(tags, SemanticTag::HelperDispatchLike) {
        SemanticNodeKind::HelperDispatch
    } else if has_tag(tags, SemanticTag::VmOpLike) {
        SemanticNodeKind::VmOp
    } else if str_contains(predicate.debug_text().as_str(), "Step") {
        SemanticNodeKind::VmStep
    } else if str_eq(predicate.family(), "DebugText") {
        SemanticNodeKind::PrimitiveOp
    } else {
        SemanticNodeKind::Eval
    }
}

fn classify_candidate_kind(candidate: &CandidateKind) -> (k: SemanticNodeKind)
    ensures
        k == kind_of_candidate(candidate@),
{
    match candidate {
        CandidateKind::AliasRelate => SemanticNodeKind::HelperDispatch,
        CandidateKind::Normalize => SemanticNodeKind::Eval,
        CandidateKind::Unknown(text) => {
            if str_contains(text.as_str(), "Op") {
                SemanticNodeKind::VmOp
            } else if str_contains(text.as_str(), "Step") {
                SemanticNodeKind::VmStep
            } else {
                SemanticNodeKind::PrimitiveOp
            }
        },
        CandidateKind::ParamEnv => SemanticNodeKind::Eval,
        CandidateKind::Impl => SemanticNodeKind::Eval,
        CandidateKind::Builtin => SemanticNodeKind::Eval,
    }
}

fn step_node(event: &TraceEvent, kind: SemanticNodeKind, text: &str, metadata: StrMap) -> (n: SemanticNode)
    ensures
        n@ == (SemanticNodeView {
            id: NodeId(event.id.0),
            kind,
            label: compress_spec(text@),
            source_event_id: Some(event.id),
            metadata: metadata@,
        }),
{
    SemanticNode {
        id: NodeId::new(event.id.0),
        kind,
        label: compress_symbol_name(text),
        source_event_id: Some(event.id),
        metadata,
    }
}

fn map_event(event: &TraceEvent) -> (r: Option<SemanticNode>)
    ensures
        match event_step(event.payload) {
            Some((kind, text, metadata)) => r matches Some(n) && n@ == (SemanticNodeView {
                id: NodeId(event.id.0),
                kind,
                label: compress_spec(text),
                source_event_id: Some(event.id),
                metadata,
            }),
            None => r is None,
        },
{
    match &event.payload {
        TracePayload::RunStarted(..) => None,
        TracePayload::RunFinished(..) => None,
        TracePayload::Info(..) => None,
        TracePayload::SubjectDiscovered(d) => Some(step_node(event, SemanticNodeKind::Eval, d.label.as_str(), d.metadata.clone())),
        TracePayload::GoalDiscovered(d) => {
            let text = d.predicate.debug_text();
            Some(step_node(event, classify_semantic_kind_from_tags(&d.semantic_tags, &d.predicate), text.as_str(), StrMap::new()))
        },
        TracePayload::GoalEntered(d) => {
            let text = d.predicate.debug_text();
            Some(step_node(event, classify_semantic_kind_from_tags(&d.semantic_tags, &d.predicate), text.as_str(), StrMap::new()))
        },
        TracePayload::GoalExited(d) => {
            let text = d.predicate.debug_text();
            Some(step_node(event, classify_semantic_kind_from_tags(&d.semantic_tags, &d.predicate), text.as_str(), StrMap::new()))
        },
        TracePayload::CandidateDiscovered(d) => {
            let text = d.candidate_kind.label();
            Some(step_node(event, classify_candidate_kind(&d.candidate_kind), text.as_str(), d.metadata.clone()))
        },
        TracePayload::CandidateTried(d) => {
            let text = d.candidate_kind.label();
            Some(step_node(event, classify_candidate_kind(&d.candidate_kind), text.as_str(), d.metadata.clone()))
        },
        TracePayload::CandidateResult(d) => {
            let text = d.candidate_kind.label();
            Some(step_node(event, classify_candidate_kind(&d.candidate_kind), text.as_str(), d.metadata.clone()))
        },
        TracePayload::DiagnosticEmitted(d) => {
            let text = d.record.message();
            Some(step_node(event, SemanticNodeKind::HelperDispatch, text.as_str(), d.record.metadata().clone()))
        },
        TracePayload::RelationDeclared(d) => Some(step_node(event, SemanticNodeKind::PrimitiveOp, d.relation.as_str(), StrMap::new())),
        TracePayload::ErrorRaised(d) => Some(step_node(event, SemanticNodeKind::PrimitiveOp, d.message.as_str(), StrMap::new())),
    }
}

/// Reads traces as sequences of semantic steps.
#[derive(Debug, Default)]
pub struct SemanticMapper;

impl SemanticMapper {
    pub fn new() -> (r: Self) {
        SemanticMapper
    }

    /// The semantic steps of a trace: see [`map_events`].
    pub fn map_trace(&self, trace: &Trace) -> (r: Vec<SemanticNode>)
        ensures
            semantic_views(r@) == map_events(trace.events@),
    {
        let mut out: Vec<SemanticNode> = Vec::new();
        let mut i: usize = 0;
        assert(trace.events@.take(0) =~= Seq::<TraceEvent>::empty());
        assert(semantic_views(out@) =~= Seq::<SemanticNodeView>::empty());
        while i < trace.events.len()
            invariant
                i <= trace.events.len(),
                semantic_views(out@) == map_events(trace.events@.take(i as int)),
            decreases trace.events.len() - i,
        {
            let ghost before = out@;
            assert(trace.events@.take(i + 1).drop_last() =~= trace.events@.take(i as int));
            assert(trace.events@.take(i + 1).last() == trace.events@[i as int]);
            match map_event(&trace.events[i]) {
                Some(n) => {
                    out.push(n);
                    assert(semantic_views(out@) =~= semantic_views(before).push(out@.last()@));
                },
                None => {},
            }
            i += 1;
        }
        assert(trace.events@.take(trace.events.len() as int) =~= trace.events@);
        out
    }
}

} // verus!
