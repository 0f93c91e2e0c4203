//! Kinds of measurements taken of a solver run.
use vstd::prelude::*;

verus! {

/// What a metric measures.
#[derive(Debug, Clone, Copy, PartialEq, Eq, Structural)]
pub enum MetricKind {
    StepCount,
    ObligationCount,
    CandidateCount,
    BranchCount,
    RecursionDepth,
    TypeSizeBytes,
    ReEvaluationCount,
    WallTimeMillis,
    ArtifactCount,
}

} // verus!
