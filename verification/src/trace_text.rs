//! The plain-text listing of a trace: one line per event.
use vstd::prelude::*;

use crate::ids::{CandidateId, GoalId, SubjectId};
use crate::text::{decimal, join_seq, push_str, push_u64, texts};
use crate::trace::{
    payload_candidate_id, payload_detail, payload_goal_id, payload_kind, payload_parent_goal_id,
    payload_parent_subject_id, payload_subject_id, payload_title, Trace, TraceEvent, TraceEventKind,
};

verus! {

broadcast use vstd::seq_lib::group_seq_properties;

/// The name of an event kind, as its variant is written.
pub open spec fn kind_name(k: TraceEventKind) -> Seq<char> {
    match k {
        TraceEventKind::RunStarted => "RunStarted"@,
        TraceEventKind::RunFinished => "RunFinished"@,
        TraceEventKind::SubjectDiscovered => "SubjectDiscovered"@,
        TraceEventKind::GoalDiscovered => "GoalDiscovered"@,
        TraceEventKind::GoalEntered => "GoalEntered"@,
        TraceEventKind::GoalExited => "GoalExited"@,
        TraceEventKind::CandidateDiscovered => "CandidateDiscovered"@,
        TraceEventKind::CandidateTried => "CandidateTried"@,
        TraceEventKind::CandidateResult => "CandidateResult"@,
        TraceEventKind::DiagnosticEmitted => "DiagnosticEmitted"@,
        TraceEventKind::RelationDeclared => "RelationDeclared"@,
        TraceEventKind::Info => "Info"@,
        TraceEventKind::ErrorRaised => "ErrorRaised"@,
    }
}

/// The name of an event kind (see [`kind_name`]).
pub fn kind_text(k: TraceEventKind) -> (r: &'static str)
    ensures
        r@ == kind_name(k),
{
    match k {
        TraceEventKind::RunStarted => "RunStarted",
        TraceEventKind::RunFinished => "RunFinished",
        TraceEventKind::SubjectDiscovered => "SubjectDiscovered",
        TraceEventKind::GoalDiscovered => "GoalDiscovered",
        TraceEventKind::GoalEntered => "GoalEntered",
        TraceEventKind::GoalExited => "GoalExited",
        TraceEventKind::CandidateDiscovered => "CandidateDiscovered",
        TraceEventKind::CandidateTried => "CandidateTried",
        TraceEventKind::CandidateResult => "CandidateResult",
        TraceEventKind::DiagnosticEmitted => "DiagnosticEmitted",
        TraceEventKind::RelationDeclared => "RelationDeclared",
        TraceEventKind::Info => "Info",
        TraceEventKind::ErrorRaised => "ErrorRaised",
    }
}

/// ` label=value` when there is a value, nothing otherwise.
pub open spec fn id_field(label: Seq<char>, value: Option<u64>) -> Seq<char> {
    match value {
        Some(v) => " "@ + label + "="@ + decimal(v as nat),
        None => Seq::empty(),
    }
}

pub open spec fn goal_number(g: Option<GoalId>) -> Option<u64> {
    match g {
        Some(GoalId(n)) => Some(n),
        None => None,
    }
}

pub open spec fn candidate_number(c: Option<CandidateId>) -> Option<u64> {
    match c {
        Some(CandidateId(n)) => Some(n),
        None => None,
    }
}

pub open spec fn subject_number(s: Option<SubjectId>) -> Option<u64> {
    match s {
        Some(SubjectId(n)) => Some(n),
        None => None,
    }
}

/// An event's kind followed by the identifiers it carries.
pub open spec fn event_prefix(e: TraceEvent) -> Seq<char> {
    let p = e.payload;
    kind_name(payload_kind(p)) + id_field("goal"@, goal_number(payload_goal_id(p))) + id_field(
        "cand"@,
        candidate_number(payload_candidate_id(p)),
    ) + id_field("subject"@, subject_number(payload_subject_id(p))) + id_field(
        "parent_subject"@,
        subject_number(payload_parent_subject_id(p)),
    ) + id_field("parent"@, goal_number(payload_parent_goal_id(p)))
}

fn goal_num(g: Option<GoalId>) -> (r: Option<u64>)
    ensures
        r == goal_number(g),
{
    match g {
        Some(GoalId(n)) => Some(n),
        None => None,
    }
}

fn subject_num(s: Option<SubjectId>) -> (r: Option<u64>)
    ensures
        r == subject_number(s),
{
    match s {
        Some(SubjectId(n)) => Some(n),
        None => None,
    }
}

/// The line of one event: its prefix, then ` :: ` and its title, then ` :: ` and its detail
/// when it has one.
pub open spec fn event_line(e: TraceEvent) -> Seq<char> {
    match payload_detail(e.payload) {
        Some(d) => event_prefix(e) + " :: "@ + payload_title(e.payload) + " :: "@ + d,
        None => event_prefix(e) + " :: "@ + payload_title(e.payload),
    }
}

/// The listing of a trace: the lines of its events, in order, joined by newlines.
pub open spec fn trace_text(events: Seq<TraceEvent>) -> Seq<char> {
    join_seq(events.map_values(|e: TraceEvent| event_line(e)), "\n"@)
}

fn push_id_field(out: &mut String, label: &str, value: Option<u64>)
    ensures
        final(out)@ == old(out)@ + id_field(label@, value),
{
    match value {
        Some(v) => {
            push_str(out, " ");
            push_str(out, label);
            push_str(out, "=");
            push_u64(out, v);
        },
        None => {},
    }
}

/// The line of one event (see [`event_line`]).
pub fn render_event_line(event: &TraceEvent) -> (r: String)
    ensures
        r@ == event_line(*event),
{
    let mut line = String::new();
    push_str(&mut line, kind_text(event.kind()));
    push_id_field(&mut line, "goal", goal_num(event.goal_id()));
    let cand = match event.candidate_id() {
        Some(CandidateId(n)) => Some(n),
        None => None,
    };
    push_id_field(&mut line, "cand", cand);
    push_id_field(&mut line, "subject", subject_num(event.subject_id()));
    push_id_field(&mut line, "parent_subject", subject_num(event.parent_subject_id()));
    push_id_field(&mut line, "parent", goal_num(event.parent_goal_id()));
    push_str(&mut line, " :: ");
    let title = event.title();
    push_str(&mut line, title.as_str());
    match event.detail() {
        Some(d) => {
            push_str(&mut line, " :: ");
            push_str(&mut line, d.as_str());
        },
        None => {},
    }
    line
}

/// The listing of a trace (see [`trace_text`]).
pub fn render_trace_text(trace: &Trace) -> (r: String)
    ensures
        r@ == trace_text(trace.events@),
{
    let mut lines: Vec<String> = Vec::new();
    let mut i: usize = 0;
    while i < trace.events.len()
        invariant
            i <= trace.events.len(),
            texts(lines@) =~= trace.events@.take(i as int).map_values(|e: TraceEvent| event_line(e)),
        decreases trace.events.len() - i,
    {
        let line = render_event_line(&trace.events[i]);
        let ghost before = lines@;
        lines.push(line);
        assert(texts(lines@) =~= texts(before).push(event_line(trace.events@[i as int])));
        i += 1;
    }
    assert(trace.events@.take(i as int) =~= trace.events@);
    crate::text::join(&lines, "\n")
}

} // verus!
