//! Trace events recorded while the trait solver runs, and their payloads.
use vstd::prelude::*;

use crate::ids::{CandidateId, DiagId, EventId, GoalId, HookId, RunId, SpanId, SubjectId, SubjectKind, TraceId};
use crate::semantic::{SemanticTag, semantic_tag_label};
use crate::strmap::StrMap;
use crate::text::{join_seq, texts, push_str, push_joined, copy_str, push_usize, decimal, join};

verus! {

/// The kind of a trace event, one per payload variant.
#[derive(Debug, Clone, Copy, PartialEq, Eq, Structural)]
pub enum TraceEventKind {
    RunStarted,
    RunFinished,
    SubjectDiscovered,
    GoalDiscovered,
    GoalEntered,
    GoalExited,
    CandidateDiscovered,
    CandidateTried,
    CandidateResult,
    DiagnosticEmitted,
    RelationDeclared,
    Info,
    ErrorRaised,
}

/// A solver predicate, as structured as its debug text allowed.
#[derive(Debug, Clone, PartialEq, Eq)]
pub enum PredicateRepr {
    DebugText(String),
    TraitPredicate { trait_path: String, self_ty: String, args: Vec<String> },
    AliasRelate { lhs: String, rhs: String },
    NormalizesTo { alias: String, target: String },
    Unknown,
}

/// The text-level model of a predicate.
pub enum PredicateView {
    DebugText(Seq<char>),
    TraitPredicate { trait_path: Seq<char>, self_ty: Seq<char>, args: Seq<Seq<char>> },
    AliasRelate { lhs: Seq<char>, rhs: Seq<char> },
    NormalizesTo { alias: Seq<char>, target: Seq<char> },
    Unknown,
}

impl View for PredicateRepr {
    type V = PredicateView;

    open spec fn view(&self) -> PredicateView {
        match self {
            PredicateRepr::DebugText(t) => PredicateView::DebugText(t@),
            PredicateRepr::TraitPredicate { trait_path, self_ty, args } => PredicateView::TraitPredicate {
                trait_path: trait_path@,
                self_ty: self_ty@,
                args: texts(args@),
            },
            PredicateRepr::AliasRelate { lhs, rhs } => PredicateView::AliasRelate { lhs: lhs@, rhs: rhs@ },
            PredicateRepr::NormalizesTo { alias, target } => PredicateView::NormalizesTo {
                alias: alias@,
                target: target@,
            },
            PredicateRepr::Unknown => PredicateView::Unknown,
        }
    }
}

/// The debug text of a predicate.
pub open spec fn predicate_text(p: PredicateView) -> Seq<char> {
    match p {
        PredicateView::DebugText(t) => t,
        PredicateView::TraitPredicate { trait_path, self_ty, args } => if args.len() == 0 {
            "TraitPredicate("@ + self_ty + " -> "@ + trait_path + ")"@
        } else {
            "TraitPredicate("@ + self_ty + " -> "@ + trait_path + "("@ + join_seq(args, ", "@) + "))"@
        },
        PredicateView::AliasRelate { lhs, rhs } => "AliasRelate("@ + lhs + ", "@ + rhs + ")"@,
        PredicateView::NormalizesTo { alias, target } => "NormalizesTo("@ + alias + ", "@ + target + ")"@,
        PredicateView::Unknown => "Unknown"@,
    }
}

/// The variant name of a predicate.
pub open spec fn predicate_family_name(p: PredicateView) -> Seq<char> {
    match p {
        PredicateView::DebugText(_) => "DebugText"@,
        PredicateView::TraitPredicate { .. } => "TraitPredicate"@,
        PredicateView::AliasRelate { .. } => "AliasRelate"@,
        PredicateView::NormalizesTo { .. } => "NormalizesTo"@,
        PredicateView::Unknown => "Unknown"@,
    }
}

impl PredicateRepr {
    pub fn debug_text(&self) -> (r: String)
        ensures
            r@ == predicate_text(self@),
    {
        match self {
            PredicateRepr::DebugText(text) => text.clone(),
            PredicateRepr::TraitPredicate { trait_path, self_ty, args } => {
                let mut out = String::new();
                push_str(&mut out, "TraitPredicate(");
                push_str(&mut out, self_ty.as_str());
                push_str(&mut out, " -> ");
                push_str(&mut out, trait_path.as_str());
                if args.len() == 0 {
                    push_str(&mut out, ")");
                } else {
                    push_str(&mut out, "(");
                    push_joined(&mut out, args, ", ");
                    push_str(&mut out, "))");
                }
                assert(out@ =~= predicate_text(self@));
                out
            },
            PredicateRepr::AliasRelate { lhs, rhs } => {
                let mut out = String::new();
                push_str(&mut out, "AliasRelate(");
                push_str(&mut out, lhs.as_str());
                push_str(&mut out, ", ");
                push_str(&mut out, rhs.as_str());
                push_str(&mut out, ")");
                assert(out@ =~= predicate_text(self@));
                out
            },
            PredicateRepr::NormalizesTo { alias, target } => {
                let mut out = String::new();
                push_str(&mut out, "NormalizesTo(");
                push_str(&mut out, alias.as_str());
                push_str(&mut out, ", ");
                push_str(&mut out, target.as_str());
                push_str(&mut out, ")");
                assert(out@ =~= predicate_text(self@));
                out
            },
            PredicateRepr::Unknown => copy_str("Unknown"),
        }
    }

    pub fn family(&self) -> (r: &'static str)
        ensures
            r@ == predicate_family_name(self@),
    {
        match self {
            PredicateRepr::DebugText(..) => "DebugText",
            PredicateRepr::TraitPredicate { .. } => "TraitPredicate",
            PredicateRepr::AliasRelate { .. } => "AliasRelate",
            PredicateRepr::NormalizesTo { .. } => "NormalizesTo",
            PredicateRepr::Unknown => "Unknown",
        }
    }

    /// A copy of this predicate.
    pub fn duplicate(&self) -> (r: Self)
        ensures
            r@ == self@,
    {
        match self {
            PredicateRepr::DebugText(t) => PredicateRepr::DebugText(t.clone()),
            PredicateRepr::TraitPredicate { trait_path, self_ty, args } => {
                let a = args.clone();
                assert(texts(a@) =~= texts(args@));
                PredicateRepr::TraitPredicate { trait_path: trait_path.clone(), self_ty: self_ty.clone(), args: a }
            },
            PredicateRepr::AliasRelate { lhs, rhs } => PredicateRepr::AliasRelate { lhs: lhs.clone(), rhs: rhs.clone() },
            PredicateRepr::NormalizesTo { alias, target } => PredicateRepr::NormalizesTo {
                alias: alias.clone(),
                target: target.clone(),
            },
            PredicateRepr::Unknown => PredicateRepr::Unknown,
        }
    }
}

/// The kind of a solver candidate.
#[derive(Debug, Clone, PartialEq, Eq)]
pub enum CandidateKind {
    ParamEnv,
    Impl,
    Builtin,
    AliasRelate,
    Normalize,
    Unknown(String),
}

/// The text-level model of a candidate kind.
pub enum CandidateKindView {
    ParamEnv,
    Impl,
    Builtin,
    AliasRelate,
    Normalize,
    Unknown(Seq<char>),
}

impl View for CandidateKind {
    type V = CandidateKindView;

    open spec fn view(&self) -> CandidateKindView {
        match self {
            CandidateKind::ParamEnv => CandidateKindView::ParamEnv,
            CandidateKind::Impl => CandidateKindView::Impl,
            CandidateKind::Builtin => CandidateKindView::Builtin,
            CandidateKind::AliasRelate => CandidateKindView::AliasRelate,
            CandidateKind::Normalize => CandidateKindView::Normalize,
            CandidateKind::Unknown(t) => CandidateKindView::Unknown(t@),
        }
    }
}

/// The label of a candidate kind: its variant name, or the raw text of an unknown kind.
pub open spec fn candidate_label(k: CandidateKindView) -> Seq<char> {
    match k {
        CandidateKindView::ParamEnv => "ParamEnv"@,
        CandidateKindView::Impl => "Impl"@,
        CandidateKindView::Builtin => "Builtin"@,
        CandidateKindView::AliasRelate => "AliasRelate"@,
        CandidateKindView::Normalize => "Normalize"@,
        CandidateKindView::Unknown(t) => t,
    }
}

/// The variant name of a candidate kind.
pub open spec fn candidate_family_name(k: CandidateKindView) -> Seq<char> {
    match k {
        CandidateKindView::Unknown(_) => "Unknown"@,
        _ => candidate_label(k),
    }
}

impl CandidateKind {
    pub fn label(&self) -> (r: String)
        ensures
            r@ == candidate_label(self@),
    {
        match self {
            CandidateKind::ParamEnv => copy_str("ParamEnv"),
            CandidateKind::Impl => copy_str("Impl"),
            CandidateKind::Builtin => copy_str("Builtin"),
            CandidateKind::AliasRelate => copy_str("AliasRelate"),
            CandidateKind::Normalize => copy_str("Normalize"),
            CandidateKind::Unknown(text) => text.clone(),
        }
    }

    pub fn family(&self) -> (r: &'static str)
        ensures
            r@ == candidate_family_name(self@),
    {
        match self {
            CandidateKind::ParamEnv => "ParamEnv",
            CandidateKind::Impl => "Impl",
            CandidateKind::Builtin => "Builtin",
            CandidateKind::AliasRelate => "AliasRelate",
            CandidateKind::Normalize => "Normalize",
            CandidateKind::Unknown(..) => "Unknown",
        }
    }

    /// A copy of this kind.
    pub fn duplicate(&self) -> (r: Self)
        ensures
            r@ == self@,
    {
        match self {
            CandidateKind::ParamEnv => CandidateKind::ParamEnv,
            CandidateKind::Impl => CandidateKind::Impl,
            CandidateKind::Builtin => CandidateKind::Builtin,
            CandidateKind::AliasRelate => CandidateKind::AliasRelate,
            CandidateKind::Normalize => CandidateKind::Normalize,
            CandidateKind::Unknown(t) => CandidateKind::Unknown(t.clone()),
        }
    }
}

/// The outcome of a goal or a candidate.
#[derive(Debug, Clone, Copy, PartialEq, Eq, Structural)]
pub enum GoalResult {
    Success,
    NoSolution,
    Ambiguous,
    Unsupported,
    Error,
}

pub open spec fn goal_result_label(r: GoalResult) -> Seq<char> {
    match r {
        GoalResult::Success => "success"@,
        GoalResult::NoSolution => "no_solution"@,
        GoalResult::Ambiguous => "ambiguous"@,
        GoalResult::Unsupported => "unsupported"@,
        GoalResult::Error => "error"@,
    }
}

impl GoalResult {
    pub fn label(self) -> (r: &'static str)
        ensures
            r@ == goal_result_label(self),
    {
        match self {
            GoalResult::Success => "success",
            GoalResult::NoSolution => "no_solution",
            GoalResult::Ambiguous => "ambiguous",
            GoalResult::Unsupported => "unsupported",
            GoalResult::Error => "error",
        }
    }
}

/// The labels of `tags` joined by commas.
pub open spec fn tags_text(tags: Seq<SemanticTag>) -> Seq<char> {
    join_seq(tags.map_values(|t: SemanticTag| semantic_tag_label(t)), ","@)
}

/// The labels of `tags` joined by commas.
pub fn semantic_tags_joined(tags: &Vec<SemanticTag>) -> (r: String)
    ensures
        r@ == tags_text(tags@),
{
    let mut labels: Vec<String> = Vec::new();
    let mut i: usize = 0;
    while i < tags.len()
        invariant
            i <= tags.len(),
            texts(labels@) =~= tags@.take(i as int).map_values(|t: SemanticTag| semantic_tag_label(t)),
        decreases tags.len() - i,
    {
        let l = copy_str(tags[i].label());
        let ghost before = labels@;
        labels.push(l);
        assert(labels@ =~= before.push(l));
        assert(texts(labels@) =~= texts(before).push(l@));
        assert(tags@.take(i + 1) =~= tags@.take(i as int).push(tags@[i as int]));
        i += 1;
    }
    assert(tags@.take(tags.len() as int) =~= tags@);
    join(&labels, ",")
}

/// A diagnostic as the trace records it.
#[derive(Debug, Clone, PartialEq, Eq)]
pub struct DiagnosticRecord {
    pub message: String,
    pub metadata: StrMap,
}

impl DiagnosticRecord {
    /// A notice from the tooling itself, with no metadata.
    pub fn tooling_notice(message: &str) -> (r: Self)
        ensures
            r.message@ == message@,
            r.metadata@.len() == 0,
    {
        DiagnosticRecord { message: copy_str(message), metadata: StrMap::new() }
    }

    pub fn message(&self) -> (r: String)
        ensures
            r@ == self.message@,
    {
        self.message.clone()
    }

    pub fn metadata(&self) -> (r: &StrMap)
        ensures
            r@ == self.metadata@,
    {
        &self.metadata
    }
}

#[derive(Debug, Clone, PartialEq, Eq)]
pub struct RunStarted {
    pub crate_name: String,
    pub rustc_version: String,
    pub subject_filter: Option<String>,
    pub max_events: usize,
    pub max_depth: usize,
}

#[derive(Debug, Clone, PartialEq, Eq)]
pub struct RunFinished {
    pub crate_name: String,
    pub goal_count: usize,
    pub candidate_count: usize,
    pub subject_count: usize,
    pub diagnostic_count: usize,
    pub dropped_count: usize,
}

#[derive(Debug, Clone, PartialEq, Eq)]
pub struct SubjectDiscovered {
    pub hook_id: HookId,
    pub subject_id: SubjectId,
    pub parent_subject_id: Option<SubjectId>,
    pub subject_kind: SubjectKind,
    pub label: String,
    pub metadata: StrMap,
}

#[derive(Debug, Clone, PartialEq, Eq)]
pub struct GoalDiscovered {
    pub hook_id: HookId,
    pub subject_id: SubjectId,
    pub goal_id: GoalId,
    pub parent_goal_id: Option<GoalId>,
    pub predicate: PredicateRepr,
    pub candidate_count: usize,
    pub semantic_tags: Vec<SemanticTag>,
}

#[derive(Debug, Clone, PartialEq, Eq)]
pub struct GoalEntered {
    pub hook_id: HookId,
    pub subject_id: SubjectId,
    pub goal_id: GoalId,
    pub parent_goal_id: Option<GoalId>,
    pub predicate: PredicateRepr,
    pub semantic_tags: Vec<SemanticTag>,
}

#[derive(Debug, Clone, PartialEq, Eq)]
pub struct GoalExited {
    pub hook_id: HookId,
    pub subject_id: SubjectId,
    pub goal_id: GoalId,
    pub parent_goal_id: Option<GoalId>,
    pub predicate: PredicateRepr,
    pub result: GoalResult,
    pub semantic_tags: Vec<SemanticTag>,
}

#[derive(Debug, Clone, PartialEq, Eq)]
pub struct CandidateDiscovered {
    pub hook_id: HookId,
    pub subject_id: SubjectId,
    pub goal_id: GoalId,
    pub candidate_id: CandidateId,
    pub candidate_kind: CandidateKind,
    pub semantic_tags: Vec<SemanticTag>,
    pub metadata: StrMap,
}

#[derive(Debug, Clone, PartialEq, Eq)]
pub struct CandidateTried {
    pub hook_id: HookId,
    pub subject_id: SubjectId,
    pub goal_id: GoalId,
    pub candidate_id: CandidateId,
    pub candidate_kind: CandidateKind,
    pub semantic_tags: Vec<SemanticTag>,
    pub metadata: StrMap,
}

#[derive(Debug, Clone, PartialEq, Eq)]
pub struct CandidateResult {
    pub hook_id: HookId,
    pub subject_id: SubjectId,
    pub goal_id: GoalId,
    pub candidate_id: CandidateId,
    pub candidate_kind: CandidateKind,
    pub result: GoalResult,
    pub semantic_tags: Vec<SemanticTag>,
    pub metadata: StrMap,
}

#[derive(Debug, Clone, PartialEq, Eq)]
pub struct DiagnosticEmitted {
    pub hook_id: Option<HookId>,
    pub diagnostic_id: DiagId,
    pub subject_id: Option<SubjectId>,
    pub goal_id: Option<GoalId>,
    pub record: DiagnosticRecord,
}

#[derive(Debug, Clone, PartialEq, Eq)]
pub struct RelationDeclared {
    pub from: String,
    pub to: String,
    pub relation: String,
}

#[derive(Debug, Clone, PartialEq, Eq)]
pub struct InfoEvent {
    pub hook_id: Option<HookId>,
    pub message: String,
    pub metadata: StrMap,
}

#[derive(Debug, Clone, PartialEq, Eq)]
pub struct ErrorRaised {
    pub hook_id: Option<HookId>,
    pub subject_id: Option<SubjectId>,
    pub goal_id: Option<GoalId>,
    pub result: GoalResult,
    pub message: String,
}

/// The data of a trace event.
#[derive(Debug, Clone, PartialEq, Eq)]
pub enum TracePayload {
    RunStarted(RunStarted),
    RunFinished(RunFinished),
    SubjectDiscovered(SubjectDiscovered),
    GoalDiscovered(GoalDiscovered),
    GoalEntered(GoalEntered),
    GoalExited(GoalExited),
    CandidateDiscovered(CandidateDiscovered),
    CandidateTried(CandidateTried),
    CandidateResult(CandidateResult),
    DiagnosticEmitted(DiagnosticEmitted),
    RelationDeclared(RelationDeclared),
    Info(InfoEvent),
    ErrorRaised(ErrorRaised),
}

/// The kind of a payload: its variant.
pub open spec fn payload_kind(p: TracePayload) -> TraceEventKind {
    match p {
        TracePayload::RunStarted(..) => TraceEventKind::RunStarted,
        TracePayload::RunFinished(..) => TraceEventKind::RunFinished,
        TracePayload::SubjectDiscovered(..) => TraceEventKind::SubjectDiscovered,
        TracePayload::GoalDiscovered(..) => TraceEventKind::GoalDiscovered,
        TracePayload::GoalEntered(..) => TraceEventKind::GoalEntered,
        TracePayload::GoalExited(..) => TraceEventKind::GoalExited,
        TracePayload::CandidateDiscovered(..) => TraceEventKind::CandidateDiscovered,
        TracePayload::CandidateTried(..) => TraceEventKind::CandidateTried,
        TracePayload::CandidateResult(..) => TraceEventKind::CandidateResult,
        TracePayload::DiagnosticEmitted(..) => TraceEventKind::DiagnosticEmitted,
        TracePayload::RelationDeclared(..) => TraceEventKind::RelationDeclared,
        TracePayload::Info(..) => TraceEventKind::Info,
        TracePayload::ErrorRaised(..) => TraceEventKind::ErrorRaised,
    }
}

impl TracePayload {
    pub fn kind(&self) -> (k: TraceEventKind)
        ensures
            k == payload_kind(*self),
    {
        match self {
            TracePayload::RunStarted(..) => TraceEventKind::RunStarted,
            TracePayload::RunFinished(..) => TraceEventKind::RunFinished,
            TracePayload::SubjectDiscovered(..) => TraceEventKind::SubjectDiscovered,
            TracePayload::GoalDiscovered(..) => TraceEventKind::GoalDiscovered,
            TracePayload::GoalEntered(..) => TraceEventKind::GoalEntered,
            TracePayload::GoalExited(..) => TraceEventKind::GoalExited,
            TracePayload::CandidateDiscovered(..) => TraceEventKind::CandidateDiscovered,
            TracePayload::CandidateTried(..) => TraceEventKind::CandidateTried,
            TracePayload::CandidateResult(..) => TraceEventKind::CandidateResult,
            TracePayload::DiagnosticEmitted(..) => TraceEventKind::DiagnosticEmitted,
            TracePayload::RelationDeclared(..) => TraceEventKind::RelationDeclared,
            TracePayload::Info(..) => TraceEventKind::Info,
            TracePayload::ErrorRaised(..) => TraceEventKind::ErrorRaised,
        }
    }
}

/// One event of a trace.
#[derive(Debug, Clone, PartialEq, Eq)]
pub struct TraceEvent {
    pub id: EventId,
    pub run_id: Option<RunId>,
    pub span_id: Option<SpanId>,
    pub payload: TracePayload,
}

/// A sequence of trace events.
#[derive(Debug, Clone, PartialEq, Eq)]
pub struct Trace {
    pub id: TraceId,
    pub events: Vec<TraceEvent>,
}

impl Trace {
    pub fn new(id: TraceId) -> (t: Self)
        ensures
            t.id == id,
            t.events@.len() == 0,
    {
        Trace { id, events: Vec::new() }
    }

    pub fn push(&mut self, event: TraceEvent)
        ensures
            final(self).id == old(self).id,
            final(self).events@ == old(self).events@.push(event),
    {
        self.events.push(event);
    }

    /// The trace of the events read from the lines of a JSON-lines input, in order, lines that
    /// held no event left out.
    pub fn from_parsed_lines(id: TraceId, parsed: Vec<Option<TraceEvent>>) -> (t: Self)
        ensures
            t.id == id,
            t.events@ == present_events(parsed@),
    {
        let mut trace = Trace::new(id);
        let mut parsed = parsed;
        let ghost all = parsed@;
        let ghost mut done: int = 0;
        assert(all.take(0) =~= Seq::<Option<TraceEvent>>::empty());
        assert(all.skip(0) =~= all);
        while parsed.len() > 0
            invariant
                0 <= done <= all.len(),
                parsed@ == all.skip(done),
                trace.id == id,
                trace.events@ == present_events(all.take(done)),
            decreases parsed.len(),
        {
            let e = parsed.remove(0);
            proof {
                assert(all.take(done + 1).drop_last() =~= all.take(done));
                assert(all[done] == e);
                assert(parsed@ =~= all.skip(done + 1));
                done = done + 1;
            }
            match e {
                Some(ev) => trace.push(ev),
                None => {},
            }
        }
        assert(all.take(done) =~= all);
        trace
    }
}

/// The events that are present, in order.
pub open spec fn present_events(s: Seq<Option<TraceEvent>>) -> Seq<TraceEvent>
    decreases s.len(),
{
    if s.len() == 0 {
        Seq::empty()
    } else {
        let rest = present_events(s.drop_last());
        match s.last() {
            Some(e) => rest.push(e),
            None => rest,
        }
    }
}

/// The lines of `s` up to position `n` and where the open line starts: each line is trimmed
/// and kept when not empty.
pub open spec fn lines_state(s: Seq<char>, n: nat) -> (Seq<Seq<char>>, int)
    decreases n,
{
    if n == 0 {
        (Seq::empty(), 0)
    } else {
        let (ls, st) = lines_state(s, (n - 1) as nat);
        if s[n - 1] == '\n' {
            (crate::projection_text::push_piece(ls, s.subrange(st, n - 1)), n as int)
        } else {
            (ls, st)
        }
    }
}

/// The trimmed, non-empty lines of `s`.
pub open spec fn json_lines_spec(s: Seq<char>) -> Seq<Seq<char>> {
    let (ls, st) = lines_state(s, s.len());
    crate::projection_text::push_piece(ls, s.skip(st))
}

/// The trimmed, non-empty lines of a JSON-lines input (see [`json_lines_spec`]).
pub fn json_lines(input: &str) -> (r: Vec<String>)
    ensures
        crate::text::texts(r@) == json_lines_spec(input@),
{
    let v = crate::text::str_chars(input);
    let mut out: Vec<String> = Vec::new();
    let mut start: usize = 0;
    let mut i: usize = 0;
    assert(crate::text::texts(out@) =~= Seq::<Seq<char>>::empty());
    while i < v.len()
        invariant
            i <= v.len(),
            v@ == input@,
            (crate::text::texts(out@), start as int) == lines_state(v@, i as nat),
            start <= i,
        decreases v.len() - i,
    {
        if v[i] == '\n' {
            crate::projection_text::push_trimmed(&mut out, &v, start, i);
            start = i + 1;
        }
        i += 1;
    }
    crate::projection_text::push_trimmed(&mut out, &v, start, v.len());
    assert(v@.subrange(start as int, v.len() as int) =~= v@.skip(start as int));
    out
}

} // verus!

verus! {

/// The subject an event concerns, if any.
pub open spec fn payload_subject_id(p: TracePayload) -> Option<SubjectId> {
    match p {
        TracePayload::SubjectDiscovered(d) => Some(d.subject_id),
        TracePayload::GoalDiscovered(d) => Some(d.subject_id),
        TracePayload::GoalEntered(d) => Some(d.subject_id),
        TracePayload::GoalExited(d) => Some(d.subject_id),
        TracePayload::CandidateDiscovered(d) => Some(d.subject_id),
        TracePayload::CandidateTried(d) => Some(d.subject_id),
        TracePayload::CandidateResult(d) => Some(d.subject_id),
        TracePayload::DiagnosticEmitted(d) => d.subject_id,
        TracePayload::ErrorRaised(d) => d.subject_id,
        _ => None,
    }
}

/// The goal an event concerns, if any.
pub open spec fn payload_goal_id(p: TracePayload) -> Option<GoalId> {
    match p {
        TracePayload::GoalDiscovered(d) => Some(d.goal_id),
        TracePayload::GoalEntered(d) => Some(d.goal_id),
        TracePayload::GoalExited(d) => Some(d.goal_id),
        TracePayload::CandidateDiscovered(d) => Some(d.goal_id),
        TracePayload::CandidateTried(d) => Some(d.goal_id),
        TracePayload::CandidateResult(d) => Some(d.goal_id),
        TracePayload::DiagnosticEmitted(d) => d.goal_id,
        TracePayload::ErrorRaised(d) => d.goal_id,
        _ => None,
    }
}

pub open spec fn payload_parent_goal_id(p: TracePayload) -> Option<GoalId> {
    match p {
        TracePayload::GoalDiscovered(d) => d.parent_goal_id,
        TracePayload::GoalEntered(d) => d.parent_goal_id,
        TracePayload::GoalExited(d) => d.parent_goal_id,
        _ => None,
    }
}

pub open spec fn payload_parent_subject_id(p: TracePayload) -> Option<SubjectId> {
    match p {
        TracePayload::SubjectDiscovered(d) => d.parent_subject_id,
        _ => None,
    }
}

pub open spec fn payload_candidate_id(p: TracePayload) -> Option<CandidateId> {
    match p {
        TracePayload::CandidateDiscovered(d) => Some(d.candidate_id),
        TracePayload::CandidateTried(d) => Some(d.candidate_id),
        TracePayload::CandidateResult(d) => Some(d.candidate_id),
        _ => None,
    }
}

pub open spec fn payload_diagnostic_id(p: TracePayload) -> Option<DiagId> {
    match p {
        TracePayload::DiagnosticEmitted(d) => Some(d.diagnostic_id),
        _ => None,
    }
}

pub open spec fn payload_hook_id(p: TracePayload) -> Option<HookId> {
    match p {
        TracePayload::SubjectDiscovered(d) => Some(d.hook_id),
        TracePayload::GoalDiscovered(d) => Some(d.hook_id),
        TracePayload::GoalEntered(d) => Some(d.hook_id),
        TracePayload::GoalExited(d) => Some(d.hook_id),
        TracePayload::CandidateDiscovered(d) => Some(d.hook_id),
        TracePayload::CandidateTried(d) => Some(d.hook_id),
        TracePayload::CandidateResult(d) => Some(d.hook_id),
        TracePayload::DiagnosticEmitted(d) => d.hook_id,
        TracePayload::Info(d) => d.hook_id,
        TracePayload::ErrorRaised(d) => d.hook_id,
        _ => None,
    }
}

/// The one-line title of an event.
pub open spec fn payload_title(p: TracePayload) -> Seq<char> {
    match p {
        TracePayload::RunStarted(d) => d.crate_name@,
        TracePayload::RunFinished(d) => d.crate_name@,
        TracePayload::SubjectDiscovered(d) => d.label@,
        TracePayload::GoalDiscovered(d) => predicate_text(d.predicate@),
        TracePayload::GoalEntered(d) => predicate_text(d.predicate@),
        TracePayload::GoalExited(d) => predicate_text(d.predicate@),
        TracePayload::CandidateDiscovered(d) => candidate_label(d.candidate_kind@),
        TracePayload::CandidateTried(d) => candidate_label(d.candidate_kind@),
        TracePayload::CandidateResult(d) => candidate_label(d.candidate_kind@),
        TracePayload::DiagnosticEmitted(d) => d.record.message@,
        TracePayload::RelationDeclared(d) => d.relation@,
        TracePayload::Info(d) => d.message@,
        TracePayload::ErrorRaised(d) => d.message@,
    }
}

/// The result label of events that carry a result.
pub open spec fn payload_detail(p: TracePayload) -> Option<Seq<char>> {
    match p {
        TracePayload::GoalExited(d) => Some(goal_result_label(d.result)),
        TracePayload::CandidateResult(d) => Some(goal_result_label(d.result)),
        TracePayload::ErrorRaised(d) => Some(goal_result_label(d.result)),
        _ => None,
    }
}

/// The metadata value an event shows under `k`.
pub open spec fn payload_metadata(p: TracePayload, k: Seq<char>) -> Option<Seq<char>> {
    match p {
        TracePayload::RunStarted(d) => if d.subject_filter is Some && k == "subject_filter"@ {
            Some(d.subject_filter.unwrap()@)
        } else if k == "max_depth"@ {
            Some(decimal(d.max_depth as nat))
        } else if k == "max_events"@ {
            Some(decimal(d.max_events as nat))
        } else if k == "rustc_version"@ {
            Some(d.rustc_version@)
        } else {
            None
        },
        TracePayload::RunFinished(d) => if k == "dropped_count"@ {
            Some(decimal(d.dropped_count as nat))
        } else if k == "diagnostic_count"@ {
            Some(decimal(d.diagnostic_count as nat))
        } else if k == "subject_count"@ {
            Some(decimal(d.subject_count as nat))
        } else if k == "candidate_count"@ {
            Some(decimal(d.candidate_count as nat))
        } else if k == "goal_count"@ {
            Some(decimal(d.goal_count as nat))
        } else {
            None
        },
        TracePayload::SubjectDiscovered(d) => d.metadata.spec_get(k),
        TracePayload::GoalDiscovered(d) => if k == "candidate_count"@ {
            Some(decimal(d.candidate_count as nat))
        } else {
            None
        },
        TracePayload::GoalEntered(d) => if d.semantic_tags@.len() > 0 && k == "semantic_tags"@ {
            Some(tags_text(d.semantic_tags@))
        } else {
            None
        },
        TracePayload::GoalExited(d) => if k == "result"@ {
            Some(goal_result_label(d.result))
        } else {
            None
        },
        TracePayload::CandidateDiscovered(d) => d.metadata.spec_get(k),
        TracePayload::CandidateTried(d) => d.metadata.spec_get(k),
        TracePayload::CandidateResult(d) => d.metadata.spec_get(k),
        TracePayload::DiagnosticEmitted(d) => d.record.metadata.spec_get(k),
        TracePayload::RelationDeclared(..) => None,
        TracePayload::Info(d) => d.metadata.spec_get(k),
        TracePayload::ErrorRaised(d) => if k == "result"@ {
            Some(goal_result_label(d.result))
        } else {
            None
        },
    }
}

fn insert_number(m: &mut StrMap, key: &str, n: usize)
    ensures
        forall|k: Seq<char>| #[trigger] final(m).spec_get(k) == if k == key@ {
            Some(decimal(n as nat))
        } else {
            old(m).spec_get(k)
        },
{
    let mut v = String::new();
    push_usize(&mut v, n);
    assert(Seq::<char>::empty() + decimal(n as nat) =~= decimal(n as nat));
    m.insert(copy_str(key), v);
}

fn insert_text(m: &mut StrMap, key: &str, value: &str)
    ensures
        forall|k: Seq<char>| #[trigger] final(m).spec_get(k) == if k == key@ {
            Some(value@)
        } else {
            old(m).spec_get(k)
        },
{
    m.insert(copy_str(key), copy_str(value));
}

impl TraceEvent {
    pub fn new(id: EventId, payload: TracePayload) -> (e: Self)
        ensures
            e.id == id,
            e.run_id is None,
            e.span_id is None,
            e.payload == payload,
    {
        TraceEvent { id, run_id: None, span_id: None, payload }
    }

    pub fn kind(&self) -> (k: TraceEventKind)
        ensures
            k == payload_kind(self.payload),
    {
        self.payload.kind()
    }

    pub fn subject_id(&self) -> (r: Option<SubjectId>)
        ensures
            r == payload_subject_id(self.payload),
    {
        match &self.payload {
            TracePayload::SubjectDiscovered(d) => Some(d.subject_id),
            TracePayload::GoalDiscovered(d) => Some(d.subject_id),
            TracePayload::GoalEntered(d) => Some(d.subject_id),
            TracePayload::GoalExited(d) => Some(d.subject_id),
            TracePayload::CandidateDiscovered(d) => Some(d.subject_id),
            TracePayload::CandidateTried(d) => Some(d.subject_id),
            TracePayload::CandidateResult(d) => Some(d.subject_id),
            TracePayload::DiagnosticEmitted(d) => d.subject_id,
            TracePayload::ErrorRaised(d) => d.subject_id,
            _ => None,
        }
    }

    pub fn goal_id(&self) -> (r: Option<GoalId>)
        ensures
            r == payload_goal_id(self.payload),
    {
        match &self.payload {
            TracePayload::GoalDiscovered(d) => Some(d.goal_id),
            TracePayload::GoalEntered(d) => Some(d.goal_id),
            TracePayload::GoalExited(d) => Some(d.goal_id),
            TracePayload::CandidateDiscovered(d) => Some(d.goal_id),
            TracePayload::CandidateTried(d) => Some(d.goal_id),
            TracePayload::CandidateResult(d) => Some(d.goal_id),
            TracePayload::DiagnosticEmitted(d) => d.goal_id,
            TracePayload::ErrorRaised(d) => d.goal_id,
            _ => None,
        }
    }

    pub fn parent_goal_id(&self) -> (r: Option<GoalId>)
        ensures
            r == payload_parent_goal_id(self.payload),
    {
        match &self.payload {
            TracePayload::GoalDiscovered(d) => d.parent_goal_id,
            TracePayload::GoalEntered(d) => d.parent_goal_id,
            TracePayload::GoalExited(d) => d.parent_goal_id,
            _ => None,
        }
    }

    pub fn parent_subject_id(&self) -> (r: Option<SubjectId>)
        ensures
            r == payload_parent_subject_id(self.payload),
    {
        match &self.payload {
            TracePayload::SubjectDiscovered(d) => d.parent_subject_id,
            _ => None,
        }
    }

    pub fn candidate_id(&self) -> (r: Option<CandidateId>)
        ensures
            r == payload_candidate_id(self.payload),
    {
        match &self.payload {
            TracePayload::CandidateDiscovered(d) => Some(d.candidate_id),
            TracePayload::CandidateTried(d) => Some(d.candidate_id),
            TracePayload::CandidateResult(d) => Some(d.candidate_id),
            _ => None,
        }
    }

    pub fn diagnostic_id(&self) -> (r: Option<DiagId>)
        ensures
            r == payload_diagnostic_id(self.payload),
    {
        match &self.payload {
            TracePayload::DiagnosticEmitted(d) => Some(d.diagnostic_id),
            _ => None,
        }
    }

    pub fn hook_id(&self) -> (r: Option<HookId>)
        ensures
            r == payload_hook_id(self.payload),
    {
        match &self.payload {
            TracePayload::SubjectDiscovered(d) => Some(d.hook_id),
            TracePayload::GoalDiscovered(d) => Some(d.hook_id),
            TracePayload::GoalEntered(d) => Some(d.hook_id),
            TracePayload::GoalExited(d) => Some(d.hook_id),
            TracePayload::CandidateDiscovered(d) => Some(d.hook_id),
            TracePayload::CandidateTried(d) => Some(d.hook_id),
            TracePayload::CandidateResult(d) => Some(d.hook_id),
            TracePayload::DiagnosticEmitted(d) => d.hook_id,
            TracePayload::Info(d) => d.hook_id,
            TracePayload::ErrorRaised(d) => d.hook_id,
            _ => None,
        }
    }

    pub fn title(&self) -> (r: String)
        ensures
            r@ == payload_title(self.payload),
    {
        match &self.payload {
            TracePayload::RunStarted(d) => d.crate_name.clone(),
            TracePayload::RunFinished(d) => d.crate_name.clone(),
            TracePayload::SubjectDiscovered(d) => d.label.clone(),
            TracePayload::GoalDiscovered(d) => d.predicate.debug_text(),
            TracePayload::GoalEntered(d) => d.predicate.debug_text(),
            TracePayload::GoalExited(d) => d.predicate.debug_text(),
            TracePayload::CandidateDiscovered(d) => d.candidate_kind.label(),
            TracePayload::CandidateTried(d) => d.candidate_kind.label(),
            TracePayload::CandidateResult(d) => d.candidate_kind.label(),
            TracePayload::DiagnosticEmitted(d) => d.record.message(),
            TracePayload::RelationDeclared(d) => d.relation.clone(),
            TracePayload::Info(d) => d.message.clone(),
            TracePayload::ErrorRaised(d) => d.message.clone(),
        }
    }

    pub fn detail(&self) -> (r: Option<String>)
        ensures
            match r {
                Some(s) => payload_detail(self.payload) == Some(s@),
                None => payload_detail(self.payload) is None,
            },
    {
        match &self.payload {
            TracePayload::GoalExited(d) => Some(copy_str(d.result.label())),
            TracePayload::CandidateResult(d) => Some(copy_str(d.result.label())),
            TracePayload::ErrorRaised(d) => Some(copy_str(d.result.label())),
            _ => None,
        }
    }

    pub fn metadata(&self) -> (m: StrMap)
        ensures
            forall|k: Seq<char>| #[trigger] m.spec_get(k) == payload_metadata(self.payload, k),
    {
        match &self.payload {
            TracePayload::RunStarted(d) => {
                let mut m = StrMap::new();
                insert_text(&mut m, "rustc_version", d.rustc_version.as_str());
                insert_number(&mut m, "max_events", d.max_events);
                insert_number(&mut m, "max_depth", d.max_depth);
                if let Some(f) = &d.subject_filter {
                    insert_text(&mut m, "subject_filter", f.as_str());
                }
                m
            },
            TracePayload::RunFinished(d) => {
                let mut m = StrMap::new();
                insert_number(&mut m, "goal_count", d.goal_count);
                insert_number(&mut m, "candidate_count", d.candidate_count);
                insert_number(&mut m, "subject_count", d.subject_count);
                insert_number(&mut m, "diagnostic_count", d.diagnostic_count);
                insert_number(&mut m, "dropped_count", d.dropped_count);
                m
            },
            TracePayload::SubjectDiscovered(d) => d.metadata.clone(),
            TracePayload::GoalDiscovered(d) => {
                let mut m = StrMap::new();
                insert_number(&mut m, "candidate_count", d.candidate_count);
                m
            },
            TracePayload::GoalEntered(d) => {
                let mut m = StrMap::new();
                if d.semantic_tags.len() > 0 {
                    let t = semantic_tags_joined(&d.semantic_tags);
                    insert_text(&mut m, "semantic_tags", t.as_str());
                }
                m
            },
            TracePayload::GoalExited(d) => {
                let mut m = StrMap::new();
                insert_text(&mut m, "result", d.result.label());
                m
            },
            TracePayload::CandidateDiscovered(d) => d.metadata.clone(),
            TracePayload::CandidateTried(d) => d.metadata.clone(),
            TracePayload::CandidateResult(d) => d.metadata.clone(),
            TracePayload::DiagnosticEmitted(d) => d.record.metadata().clone(),
            TracePayload::RelationDeclared(..) => StrMap::new(),
            TracePayload::Info(d) => d.metadata.clone(),
            TracePayload::ErrorRaised(d) => {
                let mut m = StrMap::new();
                insert_text(&mut m, "result", d.result.label());
                m
            },
        }
    }
}

} // verus!
