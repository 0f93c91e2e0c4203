//! Filtering goal trees by result, candidate kind, depth and subject.
use vstd::prelude::*;

use crate::solve::{
    CandidateView, GoalTree, GoalTreeCandidate, GoalTreeGoal, GoalTreeSubject, GoalTreeView, GoalView, SubjectView,
    candidate_views, goal_views, lemma_goal_views, subject_views,
};
use crate::strmap::StrMap;
use crate::text::{lower_seq, seq_contains, str_contains, to_lower};
use crate::trace::{GoalResult, candidate_label};

verus! {

/// Which goal results a filter keeps.
#[derive(Debug, Clone, Copy, PartialEq, Eq, Structural)]
pub enum SolveResultFilter {
    Success,
    NoSolution,
    Ambiguous,
    Unsupported,
}

pub open spec fn result_filter_label(f: SolveResultFilter) -> Seq<char> {
    match f {
        SolveResultFilter::Success => "ok"@,
        SolveResultFilter::NoSolution => "no_solution"@,
        SolveResultFilter::Ambiguous => "ambiguous"@,
        SolveResultFilter::Unsupported => "unsupported"@,
    }
}

/// The results a filter keeps: `Success` keeps successes, `Unsupported` keeps unsupported and
/// errored goals, the others keep their namesake.
pub open spec fn result_filter_matches(f: SolveResultFilter, value: GoalResult) -> bool {
    match f {
        SolveResultFilter::Success => value == GoalResult::Success,
        SolveResultFilter::NoSolution => value == GoalResult::NoSolution,
        SolveResultFilter::Ambiguous => value == GoalResult::Ambiguous,
        SolveResultFilter::Unsupported => value == GoalResult::Unsupported || value == GoalResult::Error,
    }
}

impl SolveResultFilter {
    pub fn label(self) -> (r: &'static str)
        ensures
            r@ == result_filter_label(self),
    {
        match self {
            SolveResultFilter::Success => "ok",
            SolveResultFilter::NoSolution => "no_solution",
            SolveResultFilter::Ambiguous => "ambiguous",
            SolveResultFilter::Unsupported => "unsupported",
        }
    }

    pub fn matches(self, value: GoalResult) -> (b: bool)
        ensures
            b == result_filter_matches(self, value),
    {
        match self {
            SolveResultFilter::Success => matches!(value, GoalResult::Success),
            SolveResultFilter::NoSolution => matches!(value, GoalResult::NoSolution),
            SolveResultFilter::Ambiguous => matches!(value, GoalResult::Ambiguous),
            SolveResultFilter::Unsupported => matches!(value, GoalResult::Unsupported | GoalResult::Error),
        }
    }
}

/// The filters applied to a goal tree; an absent filter keeps everything.
#[derive(Debug, Clone, PartialEq, Eq)]
pub struct SolveFilters {
    pub result: Option<SolveResultFilter>,
    pub candidate_kind: Option<String>,
    pub max_depth: Option<usize>,
    pub subject: Option<String>,
}

/// The mathematical value of [`SolveFilters`].
pub struct FiltersView {
    pub result: Option<SolveResultFilter>,
    pub candidate_kind: Option<Seq<char>>,
    pub max_depth: Option<usize>,
    pub subject: Option<Seq<char>>,
}

pub open spec fn opt_text(o: Option<String>) -> Option<Seq<char>> {
    match o {
        Some(s) => Some(s@),
        None => None,
    }
}

impl View for SolveFilters {
    type V = FiltersView;

    open spec fn view(&self) -> FiltersView {
        FiltersView {
            result: self.result,
            candidate_kind: opt_text(self.candidate_kind),
            max_depth: self.max_depth,
            subject: opt_text(self.subject),
        }
    }
}

impl Default for SolveFilters {
    fn default() -> (r: Self)
        ensures
            r.result is None,
            r.candidate_kind is None,
            r.max_depth is None,
            r.subject is None,
    {
        SolveFilters { result: None, candidate_kind: None, max_depth: None, subject: None }
    }
}

/// Case-insensitive (ASCII) containment.
pub open spec fn contains_ignoring_case(hay: Seq<char>, needle: Seq<char>) -> bool {
    seq_contains(lower_seq(hay), lower_seq(needle))
}

/// A subject is kept when no subject pattern is set, or when its label or one of its metadata
/// values contains the pattern, ignoring ASCII case.
pub open spec fn subject_matches_spec(s: SubjectView, pattern: Option<Seq<char>>) -> bool {
    match pattern {
        None => true,
        Some(p) => contains_ignoring_case(s.label, p) || exists|i: int|
            0 <= i < s.metadata.len() && contains_ignoring_case(#[trigger] s.metadata[i].1, p),
    }
}

/// A candidate is kept when no kind filter is set, or when its kind's label contains the filter,
/// ignoring ASCII case.
pub open spec fn candidate_kept(c: CandidateView, f: FiltersView) -> bool {
    match f.candidate_kind {
        None => true,
        Some(needle) => contains_ignoring_case(candidate_label(c.kind), needle),
    }
}

/// The candidates that the filters keep, in order.
pub open spec fn filter_candidates_spec(cs: Seq<CandidateView>, f: FiltersView) -> Seq<CandidateView>
    decreases cs.len(),
{
    if cs.len() == 0 {
        Seq::empty()
    } else {
        let rest = filter_candidates_spec(cs.drop_last(), f);
        if candidate_kept(cs.last(), f) {
            rest.push(cs.last())
        } else {
            rest
        }
    }
}

/// A goal after filtering. It is dropped when it lies deeper than the depth limit. Otherwise its
/// children are filtered, its candidates are filtered, and it is kept when its result passes the
/// result filter and (with a kind filter set) a candidate is left, or when a child is left.
pub open spec fn filter_goal_spec(g: GoalView, f: FiltersView) -> Option<GoalView>
    decreases g,
{
    if f.max_depth is Some && g.depth > f.max_depth->0 {
        None
    } else {
        let children = filter_goals_spec(g.children, f);
        let candidates = filter_candidates_spec(g.candidates, f);
        let result_matches = match f.result {
            Some(r) => result_filter_matches(r, g.result),
            None => true,
        };
        let candidate_matches = f.candidate_kind is None || candidates.len() > 0;
        if (result_matches && candidate_matches) || children.len() > 0 {
            Some(GoalView { candidates, children, ..g })
        } else {
            None
        }
    }
}

/// The goals of `gs` that filtering keeps, each filtered, in order.
pub open spec fn filter_goals_spec(gs: Seq<GoalView>, f: FiltersView) -> Seq<GoalView>
    decreases gs,
{
    if gs.len() == 0 {
        Seq::empty()
    } else {
        let rest = filter_goals_spec(gs.drop_last(), f);
        match filter_goal_spec(gs.last(), f) {
            Some(g) => rest.push(g),
            None => rest,
        }
    }
}

/// The subjects that filtering keeps: those that match the subject pattern and keep a root.
pub open spec fn filter_subjects_spec(ss: Seq<SubjectView>, f: FiltersView) -> Seq<SubjectView>
    decreases ss.len(),
{
    if ss.len() == 0 {
        Seq::empty()
    } else {
        let rest = filter_subjects_spec(ss.drop_last(), f);
        let s = ss.last();
        let roots = filter_goals_spec(s.roots, f);
        if subject_matches_spec(s, f.subject) && roots.len() > 0 {
            rest.push(SubjectView { roots, ..s })
        } else {
            rest
        }
    }
}

/// The goal tree after filtering.
pub open spec fn filter_tree_spec(t: GoalTreeView, f: FiltersView) -> GoalTreeView {
    GoalTreeView { trace_id: t.trace_id, subjects: filter_subjects_spec(t.subjects, f) }
}

fn contains_ignoring_case_of(hay: &str, needle: &str) -> (b: bool)
    ensures
        b == contains_ignoring_case(hay@, needle@),
{
    let h = to_lower(hay);
    let n = to_lower(needle);
    str_contains(h.as_str(), n.as_str())
}

fn subject_matches(subject: &GoalTreeSubject, pattern: &Option<String>) -> (b: bool)
    ensures
        b == subject_matches_spec(subject@, opt_text(*pattern)),
{
    match pattern {
        None => true,
        Some(p) => {
            if contains_ignoring_case_of(subject.label.as_str(), p.as_str()) {
                return true;
            }
            let mut i: usize = 0;
            while i < subject.metadata.len()
                invariant
                    i <= subject.metadata@.len(),
                    opt_text(*pattern) == Some(p@),
                    forall|j: int| 0 <= j < i ==> !contains_ignoring_case(#[trigger] subject.metadata@[j].1, p@),
                decreases subject.metadata@.len() - i,
            {
                if contains_ignoring_case_of(subject.metadata.value_at(i).as_str(), p.as_str()) {
                    assert(contains_ignoring_case(subject@.metadata[i as int].1, p@));
                    return true;
                }
                i += 1;
            }
            false
        },
    }
}

fn filter_candidates(cs: &Vec<GoalTreeCandidate>, filters: &SolveFilters) -> (r: Vec<GoalTreeCandidate>)
    ensures
        candidate_views(r@) == filter_candidates_spec(candidate_views(cs@), filters@),
{
    let ghost all = candidate_views(cs@);
    let mut out: Vec<GoalTreeCandidate> = Vec::new();
    let mut i: usize = 0;
    assert(all.take(0) =~= Seq::<CandidateView>::empty());
    assert(candidate_views(out@) =~= Seq::<CandidateView>::empty());
    while i < cs.len()
        invariant
            i <= cs.len(),
            all == candidate_views(cs@),
            candidate_views(out@) == filter_candidates_spec(all.take(i as int), filters@),
        decreases cs.len() - i,
    {
        let c = &cs[i];
        let keep = match &filters.candidate_kind {
            None => true,
            Some(needle) => {
                let label = c.kind.label();
                contains_ignoring_case_of(label.as_str(), needle.as_str())
            },
        };
        assert(all.take(i + 1).drop_last() =~= all.take(i as int));
        assert(all.take(i + 1).last() == c@);
        if keep {
            let ghost before = out@;
            out.push(c.duplicate());
            assert(candidate_views(out@) =~= candidate_views(before).push(c@));
        }
        i += 1;
    }
    assert(all.take(cs.len() as int) =~= all);
    out
}

fn filter_goal(goal: &GoalTreeGoal, filters: &SolveFilters) -> (r: Option<GoalTreeGoal>)
    ensures
        match r {
            Some(g) => filter_goal_spec(goal@, filters@) == Some(g@),
            None => filter_goal_spec(goal@, filters@) is None,
        },
    decreases goal,
{
    if let Some(max_depth) = filters.max_depth {
        if goal.depth > max_depth {
            return None;
        }
    }
    proof {
        lemma_goal_views(goal.children@);
    }
    let ghost all = goal_views(goal.children@);
    let mut children: Vec<GoalTreeGoal> = Vec::new();
    let mut i: usize = 0;
    assert(all.take(0) =~= Seq::<GoalView>::empty());
    assert(goal_views(children@) =~= Seq::<GoalView>::empty());
    while i < goal.children.len()
        invariant
            i <= goal.children.len(),
            all == goal_views(goal.children@),
            all.len() == goal.children@.len(),
            forall|j: int| 0 <= j < goal.children@.len() ==> #[trigger] all[j] == goal.children@[j].view_goal(),
            goal_views(children@) == filter_goals_spec(all.take(i as int), filters@),
        decreases goal.children.len() - i,
    {
        proof {
            assert(decreases_to!(*goal => goal.children));
        }
        let kept = filter_goal(&goal.children[i], filters);
        assert(all.take(i + 1).drop_last() =~= all.take(i as int));
        assert(all.take(i + 1).last() == goal.children@[i as int]@);
        match kept {
            Some(g) => {
                let ghost before = children@;
                children.push(g);
                assert(children@.drop_last() =~= before);
            },
            None => {},
        }
        i += 1;
    }
    assert(all.take(goal.children.len() as int) =~= all);
    let candidates = filter_candidates(&goal.candidates, filters);
    let result_matches = match filters.result {
        Some(f) => f.matches(goal.result),
        None => true,
    };
    let candidate_matches = filters.candidate_kind.is_none() || candidates.len() > 0;
    assert(candidate_views(candidates@).len() == candidates@.len());
    if (result_matches && candidate_matches) || children.len() > 0 {
        proof {
            lemma_goal_views(children@);
        }
        Some(
            GoalTreeGoal {
                id: goal.id,
                parent_goal_id: goal.parent_goal_id,
                predicate: goal.predicate.duplicate(),
                result: goal.result,
                depth: goal.depth,
                semantic_tags: crate::semantic::copy_tags(&goal.semantic_tags),
                candidates,
                children,
            },
        )
    } else {
        proof {
            lemma_goal_views(children@);
        }
        None
    }
}

/// Filters a goal tree: see [`filter_tree_spec`].
pub fn filter_goal_tree(tree: &GoalTree, filters: &SolveFilters) -> (r: GoalTree)
    ensures
        r@ == filter_tree_spec(tree@, filters@),
{
    let ghost all = subject_views(tree.subjects@);
    let mut subjects: Vec<GoalTreeSubject> = Vec::new();
    let mut i: usize = 0;
    assert(all.take(0) =~= Seq::<SubjectView>::empty());
    assert(subject_views(subjects@) =~= Seq::<SubjectView>::empty());
    while i < tree.subjects.len()
        invariant
            i <= tree.subjects.len(),
            all == subject_views(tree.subjects@),
            subject_views(subjects@) == filter_subjects_spec(all.take(i as int), filters@),
        decreases tree.subjects.len() - i,
    {
        let subject = &tree.subjects[i];
        assert(all.take(i + 1).drop_last() =~= all.take(i as int));
        assert(all.take(i + 1).last() == subject@);
        if subject_matches(subject, &filters.subject) {
            proof {
                lemma_goal_views(subject.roots@);
            }
            let ghost rall = goal_views(subject.roots@);
            let mut roots: Vec<GoalTreeGoal> = Vec::new();
            let mut k: usize = 0;
            assert(rall.take(0) =~= Seq::<GoalView>::empty());
            assert(goal_views(roots@) =~= Seq::<GoalView>::empty());
            while k < subject.roots.len()
                invariant
                    k <= subject.roots.len(),
                    rall == goal_views(subject.roots@),
                    rall.len() == subject.roots@.len(),
                    forall|j: int| 0 <= j < subject.roots@.len() ==> #[trigger] rall[j] == subject.roots@[j].view_goal(),
                    goal_views(roots@) == filter_goals_spec(rall.take(k as int), filters@),
                decreases subject.roots.len() - k,
            {
                let kept = filter_goal(&subject.roots[k], filters);
                assert(rall.take(k + 1).drop_last() =~= rall.take(k as int));
                assert(rall.take(k + 1).last() == subject.roots@[k as int]@);
                match kept {
                    Some(g) => {
                        let ghost before = roots@;
                        roots.push(g);
                        assert(roots@.drop_last() =~= before);
                    },
                    None => {},
                }
                k += 1;
            }
            assert(rall.take(subject.roots.len() as int) =~= rall);
            proof {
                lemma_goal_views(roots@);
            }
            if roots.len() > 0 {
                let ghost before = subjects@;
                subjects.push(
                    GoalTreeSubject {
                        id: subject.id,
                        kind: subject.kind,
                        label: subject.label.clone(),
                        metadata: subject.metadata.clone(),
                        roots,
                    },
                );
                assert(subject_views(subjects@) =~= subject_views(before).push(subjects@.last()@));
            }
        }
        i += 1;
    }
    assert(all.take(tree.subjects.len() as int) =~= all);
    GoalTree { trace_id: tree.trace_id, subjects }
}


// ---------------------------------------------------------------------------
// Laws
// ---------------------------------------------------------------------------

/// Filters that keep everything.
pub open spec fn no_filters(f: FiltersView) -> bool {
    f.result is None && f.candidate_kind is None && f.max_depth is None && f.subject is None
}

/// Every goal of `g`, nested ones included, lies no deeper than `m`.
pub open spec fn goal_within_depth(g: GoalView, m: usize) -> bool
    decreases g,
{
    g.depth <= m && goals_within_depth(g.children, m)
}

/// Every goal of `gs`, nested ones included, lies no deeper than `m`.
pub open spec fn goals_within_depth(gs: Seq<GoalView>, m: usize) -> bool
    decreases gs,
{
    gs.len() == 0 || (goals_within_depth(gs.drop_last(), m) && goal_within_depth(gs.last(), m))
}

proof fn lemma_candidates_fixed(cs: Seq<CandidateView>, f: FiltersView)
    ensures
        filter_candidates_spec(filter_candidates_spec(cs, f), f) == filter_candidates_spec(cs, f),
        forall|i: int| 0 <= i < filter_candidates_spec(cs, f).len() ==> candidate_kept(#[trigger] filter_candidates_spec(cs, f)[i], f),
    decreases cs.len(),
{
    if cs.len() > 0 {
        lemma_candidates_fixed(cs.drop_last(), f);
        let rest = filter_candidates_spec(cs.drop_last(), f);
        if candidate_kept(cs.last(), f) {
            assert(rest.push(cs.last()).drop_last() =~= rest);
        }
    }
}

proof fn lemma_goal_fixed(g: GoalView, f: FiltersView)
    ensures
        match filter_goal_spec(g, f) {
            Some(h) => filter_goal_spec(h, f) == Some(h),
            None => true,
        },
    decreases g,
{
    if !(f.max_depth is Some && g.depth > f.max_depth->0) {
        lemma_goals_fixed(g.children, f);
        lemma_candidates_fixed(g.candidates, f);
    }
}

proof fn lemma_goals_fixed(gs: Seq<GoalView>, f: FiltersView)
    ensures
        filter_goals_spec(filter_goals_spec(gs, f), f) == filter_goals_spec(gs, f),
    decreases gs,
{
    if gs.len() > 0 {
        lemma_goals_fixed(gs.drop_last(), f);
        lemma_goal_fixed(gs.last(), f);
        let rest = filter_goals_spec(gs.drop_last(), f);
        match filter_goal_spec(gs.last(), f) {
            Some(h) => {
                assert(rest.push(h).drop_last() =~= rest);
            },
            None => {},
        }
    }
}

proof fn lemma_subjects_fixed(ss: Seq<SubjectView>, f: FiltersView)
    ensures
        filter_subjects_spec(filter_subjects_spec(ss, f), f) == filter_subjects_spec(ss, f),
    decreases ss.len(),
{
    if ss.len() > 0 {
        lemma_subjects_fixed(ss.drop_last(), f);
        let rest = filter_subjects_spec(ss.drop_last(), f);
        let s = ss.last();
        let roots = filter_goals_spec(s.roots, f);
        lemma_goals_fixed(s.roots, f);
        if subject_matches_spec(s, f.subject) && roots.len() > 0 {
            let t = SubjectView { roots, ..s };
            assert(rest.push(t).drop_last() =~= rest);
            assert(t.label == s.label && t.metadata == s.metadata);
            assert(subject_matches_spec(t, f.subject) == subject_matches_spec(s, f.subject)) by {
                match f.subject {
                    None => {},
                    Some(p) => {
                        if subject_matches_spec(s, f.subject) && !contains_ignoring_case(s.label, p) {
                            let i = choose|i: int|
                                0 <= i < s.metadata.len() && contains_ignoring_case(#[trigger] s.metadata[i].1, p);
                            assert(contains_ignoring_case(t.metadata[i].1, p));
                        }
                    },
                }
            }
        }
    }
}

/// Filtering twice with the same filters gives what filtering once gives.
pub proof fn filter_goal_tree_idempotent(t: GoalTreeView, f: FiltersView)
    ensures
        filter_tree_spec(filter_tree_spec(t, f), f) == filter_tree_spec(t, f),
{
    lemma_subjects_fixed(t.subjects, f);
}

proof fn lemma_goal_depth(g: GoalView, f: FiltersView, m: usize)
    requires
        f.max_depth == Some(m),
    ensures
        match filter_goal_spec(g, f) {
            Some(h) => goal_within_depth(h, m),
            None => true,
        },
    decreases g,
{
    if g.depth <= m {
        lemma_goals_depth(g.children, f, m);
    }
}

proof fn lemma_goals_depth(gs: Seq<GoalView>, f: FiltersView, m: usize)
    requires
        f.max_depth == Some(m),
    ensures
        goals_within_depth(filter_goals_spec(gs, f), m),
    decreases gs,
{
    if gs.len() > 0 {
        lemma_goals_depth(gs.drop_last(), f, m);
        lemma_goal_depth(gs.last(), f, m);
        let rest = filter_goals_spec(gs.drop_last(), f);
        match filter_goal_spec(gs.last(), f) {
            Some(h) => {
                assert(rest.push(h).drop_last() =~= rest);
            },
            None => {},
        }
    }
}

proof fn lemma_subjects_depth(ss: Seq<SubjectView>, f: FiltersView, m: usize)
    requires
        f.max_depth == Some(m),
    ensures
        forall|i: int| 0 <= i < filter_subjects_spec(ss, f).len() ==> goals_within_depth(
            (#[trigger] filter_subjects_spec(ss, f)[i]).roots,
            m,
        ),
    decreases ss.len(),
{
    if ss.len() > 0 {
        lemma_subjects_depth(ss.drop_last(), f, m);
        lemma_goals_depth(ss.last().roots, f, m);
    }
}

/// With a depth limit set, no goal left in a filtered tree lies deeper than the limit.
pub proof fn filter_goal_tree_respects_max_depth(t: GoalTreeView, f: FiltersView, m: usize)
    requires
        f.max_depth == Some(m),
    ensures
        forall|i: int| 0 <= i < filter_tree_spec(t, f).subjects.len() ==> goals_within_depth(
            (#[trigger] filter_tree_spec(t, f).subjects[i]).roots,
            m,
        ),
{
    lemma_subjects_depth(t.subjects, f, m);
}

proof fn lemma_candidates_unfiltered(cs: Seq<CandidateView>, f: FiltersView)
    requires
        no_filters(f),
    ensures
        filter_candidates_spec(cs, f) == cs,
    decreases cs.len(),
{
    if cs.len() > 0 {
        lemma_candidates_unfiltered(cs.drop_last(), f);
        assert(cs.drop_last().push(cs.last()) =~= cs);
    }
}

proof fn lemma_goal_unfiltered(g: GoalView, f: FiltersView)
    requires
        no_filters(f),
    ensures
        filter_goal_spec(g, f) == Some(g),
    decreases g,
{
    lemma_goals_unfiltered(g.children, f);
    lemma_candidates_unfiltered(g.candidates, f);
}

proof fn lemma_goals_unfiltered(gs: Seq<GoalView>, f: FiltersView)
    requires
        no_filters(f),
    ensures
        filter_goals_spec(gs, f) == gs,
    decreases gs,
{
    if gs.len() > 0 {
        lemma_goals_unfiltered(gs.drop_last(), f);
        lemma_goal_unfiltered(gs.last(), f);
        assert(gs.drop_last().push(gs.last()) =~= gs);
    }
}

proof fn lemma_subjects_unfiltered(ss: Seq<SubjectView>, f: FiltersView)
    requires
        no_filters(f),
        forall|i: int| 0 <= i < ss.len() ==> (#[trigger] ss[i]).roots.len() > 0,
    ensures
        filter_subjects_spec(ss, f) == ss,
    decreases ss.len(),
{
    if ss.len() > 0 {
        lemma_subjects_unfiltered(ss.drop_last(), f);
        lemma_goals_unfiltered(ss.last().roots, f);
        assert(ss[ss.len() - 1].roots.len() > 0);
        assert(ss.drop_last().push(ss.last()) =~= ss);
    }
}

/// Filters that are all unset leave a tree unchanged, as long as each subject has a root goal
/// (a subject without roots is always dropped).
pub proof fn filter_goal_tree_without_filters(t: GoalTreeView, f: FiltersView)
    requires
        no_filters(f),
        forall|i: int| 0 <= i < t.subjects.len() ==> (#[trigger] t.subjects[i]).roots.len() > 0,
    ensures
        filter_tree_spec(t, f) == t,
{
    lemma_subjects_unfiltered(t.subjects, f);
}

} // verus!
