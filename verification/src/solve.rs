//! Goal trees: the solver's goals per subject, nested as the solver explored them.
use vstd::prelude::*;

use crate::ids::{CandidateId, GoalId, SubjectId, SubjectKind, TraceId};
use crate::semantic::{SemanticTag, copy_tags};
use crate::strmap::StrMap;
use crate::trace::{CandidateKind, CandidateKindView, GoalResult, PredicateRepr, PredicateView};

verus! {

/// A candidate the solver considered for a goal.
#[derive(Debug)]
pub struct GoalTreeCandidate {
    pub id: CandidateId,
    pub kind: CandidateKind,
    pub result: GoalResult,
    pub semantic_tags: Vec<SemanticTag>,
    pub metadata: StrMap,
}

/// A goal, its candidates and the goals nested under it.
#[derive(Debug)]
pub struct GoalTreeGoal {
    pub id: GoalId,
    pub parent_goal_id: Option<GoalId>,
    pub predicate: PredicateRepr,
    pub result: GoalResult,
    pub depth: usize,
    pub semantic_tags: Vec<SemanticTag>,
    pub candidates: Vec<GoalTreeCandidate>,
    pub children: Vec<GoalTreeGoal>,
}

/// A subject of the solver run and its root goals.
#[derive(Debug)]
pub struct GoalTreeSubject {
    pub id: SubjectId,
    pub kind: SubjectKind,
    pub label: String,
    pub metadata: StrMap,
    pub roots: Vec<GoalTreeGoal>,
}

/// The goal trees of one trace.
#[derive(Debug)]
pub struct GoalTree {
    pub trace_id: TraceId,
    pub subjects: Vec<GoalTreeSubject>,
}

/// The mathematical value of a [`GoalTreeCandidate`].
pub struct CandidateView {
    pub id: CandidateId,
    pub kind: CandidateKindView,
    pub result: GoalResult,
    pub tags: Seq<SemanticTag>,
    pub metadata: Seq<(Seq<char>, Seq<char>)>,
}

/// The mathematical value of a [`GoalTreeGoal`].
pub struct GoalView {
    pub id: GoalId,
    pub parent_goal_id: Option<GoalId>,
    pub predicate: PredicateView,
    pub result: GoalResult,
    pub depth: usize,
    pub tags: Seq<SemanticTag>,
    pub candidates: Seq<CandidateView>,
    pub children: Seq<GoalView>,
}

/// The mathematical value of a [`GoalTreeSubject`].
pub struct SubjectView {
    pub id: SubjectId,
    pub kind: SubjectKind,
    pub label: Seq<char>,
    pub metadata: Seq<(Seq<char>, Seq<char>)>,
    pub roots: Seq<GoalView>,
}

/// The mathematical value of a [`GoalTree`].
pub struct GoalTreeView {
    pub trace_id: TraceId,
    pub subjects: Seq<SubjectView>,
}

impl View for GoalTreeCandidate {
    type V = CandidateView;

    open spec fn view(&self) -> CandidateView {
        CandidateView {
            id: self.id,
            kind: self.kind@,
            result: self.result,
            tags: self.semantic_tags@,
            metadata: self.metadata@,
        }
    }
}

/// The views of a sequence of candidates.
pub open spec fn candidate_views(s: Seq<GoalTreeCandidate>) -> Seq<CandidateView> {
    s.map_values(|c: GoalTreeCandidate| c@)
}

impl GoalTreeGoal {
    pub open spec fn view_goal(self) -> GoalView
        decreases self,
    {
        GoalView {
            id: self.id,
            parent_goal_id: self.parent_goal_id,
            predicate: self.predicate@,
            result: self.result,
            depth: self.depth,
            tags: self.semantic_tags@,
            candidates: candidate_views(self.candidates@),
            children: goal_views(self.children@),
        }
    }
}

/// The views of a sequence of goals.
pub open spec fn goal_views(s: Seq<GoalTreeGoal>) -> Seq<GoalView>
    decreases s,
{
    if s.len() == 0 {
        Seq::empty()
    } else {
        goal_views(s.drop_last()).push(s.last().view_goal())
    }
}

/// The views of a sequence of goals, element by element.
pub proof fn lemma_goal_views(s: Seq<GoalTreeGoal>)
    ensures
        goal_views(s).len() == s.len(),
        forall|i: int| 0 <= i < s.len() ==> #[trigger] goal_views(s)[i] == s[i].view_goal(),
    decreases s.len(),
{
    if s.len() > 0 {
        lemma_goal_views(s.drop_last());
    }
}

impl View for GoalTreeGoal {
    type V = GoalView;

    open spec fn view(&self) -> GoalView {
        self.view_goal()
    }
}

impl View for GoalTreeSubject {
    type V = SubjectView;

    open spec fn view(&self) -> SubjectView {
        SubjectView {
            id: self.id,
            kind: self.kind,
            label: self.label@,
            metadata: self.metadata@,
            roots: goal_views(self.roots@),
        }
    }
}

/// The views of a sequence of subjects.
pub open spec fn subject_views(s: Seq<GoalTreeSubject>) -> Seq<SubjectView> {
    s.map_values(|x: GoalTreeSubject| x@)
}

impl View for GoalTree {
    type V = GoalTreeView;

    open spec fn view(&self) -> GoalTreeView {
        GoalTreeView { trace_id: self.trace_id, subjects: subject_views(self.subjects@) }
    }
}

impl GoalTreeCandidate {
    /// A copy of this candidate.
    pub fn duplicate(&self) -> (r: Self)
        ensures
            r@ == self@,
    {
        GoalTreeCandidate {
            id: self.id,
            kind: self.kind.duplicate(),
            result: self.result,
            semantic_tags: copy_tags(&self.semantic_tags),
            metadata: self.metadata.clone(),
        }
    }
}

} // verus!
