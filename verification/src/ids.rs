//! Numeric identifiers of trace entities, and the small enums that name hooks and subjects.
use vstd::prelude::*;

verus! {

/// Identifier of a graph node.
#[derive(Debug, Clone, Copy, PartialEq, Eq, PartialOrd, Ord, Hash, Structural)]
pub struct NodeId(pub u64);

/// Identifier of a source span.
#[derive(Debug, Clone, Copy, PartialEq, Eq, PartialOrd, Ord, Hash, Structural)]
pub struct SpanId(pub u64);

/// Identifier of a whole trace.
#[derive(Debug, Clone, Copy, PartialEq, Eq, PartialOrd, Ord, Hash, Structural)]
pub struct TraceId(pub u64);

/// Identifier of a solver goal.
#[derive(Debug, Clone, Copy, PartialEq, Eq, PartialOrd, Ord, Hash, Structural)]
pub struct GoalId(pub u64);

/// Identifier of a collection subject.
#[derive(Debug, Clone, Copy, PartialEq, Eq, PartialOrd, Ord, Hash, Structural)]
pub struct SubjectId(pub u64);

/// Identifier of a solver candidate.
#[derive(Debug, Clone, Copy, PartialEq, Eq, PartialOrd, Ord, Hash, Structural)]
pub struct CandidateId(pub u64);

/// Identifier of a diagnostic.
#[derive(Debug, Clone, Copy, PartialEq, Eq, PartialOrd, Ord, Hash, Structural)]
pub struct DiagId(pub u64);

/// Identifier of a trace event.
#[derive(Debug, Clone, Copy, PartialEq, Eq, PartialOrd, Ord, Hash, Structural)]
pub struct EventId(pub u64);

/// Identifier of a collection run.
#[derive(Debug, Clone, Copy, PartialEq, Eq, PartialOrd, Ord, Hash, Structural)]
pub struct RunId(pub u64);

impl NodeId {
    pub fn new(value: u64) -> (r: Self)
        ensures
            r.0 == value,
    {
        NodeId(value)
    }

    pub fn value(self) -> (v: u64)
        ensures
            v == self.0,
    {
        self.0
    }
}

impl SpanId {
    pub fn new(value: u64) -> (r: Self)
        ensures
            r.0 == value,
    {
        SpanId(value)
    }

    pub fn value(self) -> (v: u64)
        ensures
            v == self.0,
    {
        self.0
    }
}

impl TraceId {
    pub fn new(value: u64) -> (r: Self)
        ensures
            r.0 == value,
    {
        TraceId(value)
    }

    pub fn value(self) -> (v: u64)
        ensures
            v == self.0,
    {
        self.0
    }
}

impl GoalId {
    pub fn new(value: u64) -> (r: Self)
        ensures
            r.0 == value,
    {
        GoalId(value)
    }

    pub fn value(self) -> (v: u64)
        ensures
            v == self.0,
    {
        self.0
    }
}

impl SubjectId {
    pub fn new(value: u64) -> (r: Self)
        ensures
            r.0 == value,
    {
        SubjectId(value)
    }

    pub fn value(self) -> (v: u64)
        ensures
            v == self.0,
    {
        self.0
    }
}

impl CandidateId {
    pub fn new(value: u64) -> (r: Self)
        ensures
            r.0 == value,
    {
        CandidateId(value)
    }

    pub fn value(self) -> (v: u64)
        ensures
            v == self.0,
    {
        self.0
    }
}

impl DiagId {
    pub fn new(value: u64) -> (r: Self)
        ensures
            r.0 == value,
    {
        DiagId(value)
    }

    pub fn value(self) -> (v: u64)
        ensures
            v == self.0,
    {
        self.0
    }
}

impl EventId {
    pub fn new(value: u64) -> (r: Self)
        ensures
            r.0 == value,
    {
        EventId(value)
    }

    pub fn value(self) -> (v: u64)
        ensures
            v == self.0,
    {
        self.0
    }
}

impl RunId {
    pub fn new(value: u64) -> (r: Self)
        ensures
            r.0 == value,
    {
        RunId(value)
    }

    pub fn value(self) -> (v: u64)
        ensures
            v == self.0,
    {
        self.0
    }
}

/// The collection hook that produced an event.
#[derive(Debug, Clone, Copy, PartialEq, Eq, Hash, Structural)]
pub enum HookId {
    TraitSolve,
    Diagnostics,
    ItemStructure,
}

/// What a collection subject stands for.
#[derive(Debug, Clone, Copy, PartialEq, Eq, Hash, Structural)]
pub enum SubjectKind {
    Item,
    Impl,
    AssocItem,
    Predicate,
}

/// The lower-case variant name of a subject kind.
pub open spec fn subject_kind_name(kind: SubjectKind) -> Seq<char> {
    match kind {
        SubjectKind::Item => "item"@,
        SubjectKind::Impl => "impl"@,
        SubjectKind::AssocItem => "associtem"@,
        SubjectKind::Predicate => "predicate"@,
    }
}

impl SubjectKind {
    /// The lower-case variant name, as `format!("{:?}", kind).to_ascii_lowercase()` writes it.
    pub fn lower_name(self) -> (s: &'static str)
        ensures
            s@ == subject_kind_name(self),
    {
        match self {
            SubjectKind::Item => "item",
            SubjectKind::Impl => "impl",
            SubjectKind::AssocItem => "associtem",
            SubjectKind::Predicate => "predicate",
        }
    }
}

} // verus!
