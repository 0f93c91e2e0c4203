//! Linking the nodes of a definition graph to the goals and candidates of a solver run that
//! speak of the same items.
use vstd::prelude::*;

use crate::definition::{DefNodeView, DefinitionGraph, DefinitionNode, DefinitionNodeKind, node_views};
use crate::ids::{CandidateId, GoalId, NodeId};
use crate::solve::{CandidateView, GoalTree, GoalTreeCandidate, GoalTreeGoal, GoalTreeSubject, GoalView, SubjectView, candidate_views, goal_views, lemma_goal_views, subject_views};
use crate::strmap::pairs_get;
use crate::text::{is_ws, seq_contains, seq_ends_with, seq_starts_with, str_chars, trim};
use crate::trace::{PredicateRepr, PredicateView, predicate_text};

verus! {

broadcast use vstd::seq_lib::group_seq_properties;

// ---------------------------------------------------------------------------
// Link keys
// ---------------------------------------------------------------------------

/// A text by which a definition node or a solver entry can be matched, its normal form, and
/// whether it is a path meant to match exactly.
pub struct LinkKey {
    pub raw: String,
    pub normalized: String,
    pub exact_path: bool,
}

/// A link key as values.
pub struct LinkKeyView {
    pub raw: Seq<char>,
    pub normalized: Seq<char>,
    pub exact_path: bool,
}

impl View for LinkKey {
    type V = LinkKeyView;

    open spec fn view(&self) -> LinkKeyView {
        LinkKeyView { raw: self.raw@, normalized: self.normalized@, exact_path: self.exact_path }
    }
}

pub open spec fn key_views(v: Seq<LinkKey>) -> Seq<LinkKeyView> {
    v.map_values(|k: LinkKey| k@)
}

/// The text inside a `Binder { value: .., bound_vars: [] }` wrapper, trimmed.
pub open spec fn unwrap_binder_spec(raw: Seq<char>) -> Seq<char> {
    let t = trim(raw);
    if seq_starts_with(t, "Binder { value: "@) {
        let s = t.skip(16);
        if seq_ends_with(s, ", bound_vars: [] }"@) {
            s.take(s.len() - 18)
        } else {
            s
        }
    } else {
        t
    }
}

/// A character that normal forms keep: not whitespace, not a quote.
pub open spec fn kept_char(c: char) -> bool {
    !is_ws(c) && c != '"' && c != '\''
}

/// The characters of `s` that normal forms keep.
pub open spec fn kept_chars(s: Seq<char>) -> Seq<char>
    decreases s.len(),
{
    if s.len() == 0 {
        Seq::empty()
    } else {
        kept_chars(s.drop_last()) + if kept_char(s.last()) {
            seq![s.last()]
        } else {
            Seq::empty()
        }
    }
}

/// The normal form of a link text: unwrapped from its binder, without whitespace or quotes.
pub open spec fn normalize_spec(v: Seq<char>) -> Seq<char> {
    kept_chars(unwrap_binder_spec(v))
}

pub open spec fn link_key(raw: Seq<char>, exact_path: bool) -> LinkKeyView {
    LinkKeyView { raw, normalized: normalize_spec(raw), exact_path }
}

/// The position of the first key of normal form `n`.
pub open spec fn normal_index(keys: Seq<LinkKeyView>, n: Seq<char>) -> Option<int>
    decreases keys.len(),
{
    if keys.len() == 0 {
        None
    } else {
        match normal_index(keys.drop_last(), n) {
            Some(i) => Some(i),
            None => if keys.last().normalized == n {
                Some(keys.len() - 1)
            } else {
                None
            },
        }
    }
}

/// The keys without empty normal forms and without repeats of a normal form: the first of each
/// stays where it is, replaced by the first exact path among the later ones when it is none.
pub open spec fn dedupe_spec(keys: Seq<LinkKeyView>) -> Seq<LinkKeyView>
    decreases keys.len(),
{
    if keys.len() == 0 {
        Seq::empty()
    } else {
        let out = dedupe_spec(keys.drop_last());
        let k = keys.last();
        if k.normalized.len() == 0 {
            out
        } else {
            match normal_index(out, k.normalized) {
                Some(i) => if k.exact_path && !out[i].exact_path {
                    out.update(i, k)
                } else {
                    out
                },
                None => out.push(k),
            }
        }
    }
}

pub proof fn lemma_normal_index(keys: Seq<LinkKeyView>, n: Seq<char>)
    ensures
        match normal_index(keys, n) {
            Some(i) => 0 <= i < keys.len() && keys[i].normalized == n && forall|j: int|
                0 <= j < i ==> keys[j].normalized != n,
            None => forall|j: int| 0 <= j < keys.len() ==> keys[j].normalized != n,
        },
    decreases keys.len(),
{
    if keys.len() > 0 {
        lemma_normal_index(keys.drop_last(), n);
        assert(forall|j: int| 0 <= j < keys.len() - 1 ==> keys.drop_last()[j] == keys[j]);
    }
}

fn kept_character(c: char) -> (b: bool)
    ensures
        b == kept_char(c),
{
    !crate::text::is_whitespace(c) && c != '"' && c != '\''
}

/// The normal form of a link text (see [`normalize_spec`]).
pub fn normalize_link_text(value: &str) -> (r: String)
    ensures
        r@ == normalize_spec(value@),
{
    let v = str_chars(value);
    let t = crate::text::trim_chars(&v);
    let prefix = str_chars("Binder { value: ");
    let suffix = str_chars(", bound_vars: [] }");
    proof {
        reveal_strlit("Binder { value: ");
        reveal_strlit(", bound_vars: [] }");
    }
    let inner: Vec<char> = if crate::text::starts_with_chars(&t, &prefix) {
        let s = crate::text::slice_range(&t, 16, t.len());
        assert(s@ =~= t@.skip(16));
        if crate::text::ends_with_chars(&s, &suffix) {
            let r = crate::text::slice_range(&s, 0, s.len() - 18);
            assert(r@ =~= s@.take(s@.len() - 18));
            r
        } else {
            s
        }
    } else {
        t
    };
    assert(inner@ == unwrap_binder_spec(value@));
    let mut out: Vec<char> = Vec::new();
    let mut i: usize = 0;
    assert(inner@.take(0) =~= Seq::<char>::empty());
    while i < inner.len()
        invariant
            i <= inner.len(),
            out@ == kept_chars(inner@.take(i as int)),
        decreases inner.len() - i,
    {
        let c = inner[i];
        assert(inner@.take(i + 1).drop_last() =~= inner@.take(i as int));
        if kept_character(c) {
            out.push(c);
        }
        assert(out@ =~= kept_chars(inner@.take(i + 1)));
        i += 1;
    }
    assert(inner@.take(i as int) =~= inner@);
    crate::text::string_from_chars(&out)
}

impl LinkKey {
    /// The key of `raw`.
    pub fn new(raw: &str, exact_path: bool) -> (r: Self)
        ensures
            r@ == link_key(raw@, exact_path),
    {
        LinkKey { raw: crate::text::copy_str(raw), normalized: normalize_link_text(raw), exact_path }
    }
}

/// The keys without empty normal forms or repeats (see [`dedupe_spec`]).
pub fn dedupe_keys(keys: Vec<LinkKey>) -> (r: Vec<LinkKey>)
    ensures
        key_views(r@) == dedupe_spec(key_views(keys@)),
{
    let ghost ks = key_views(keys@);
    let mut out: Vec<LinkKey> = Vec::new();
    let mut keys = keys;
    let ghost mut done: int = 0;
    let ghost orig = keys@;
    assert(ks.take(0) =~= Seq::<LinkKeyView>::empty());
    assert(key_views(out@) =~= Seq::<LinkKeyView>::empty());
    assert(orig.skip(0) =~= orig);
    while keys.len() > 0
        invariant
            0 <= done <= orig.len(),
            ks == key_views(orig),
            keys@ == orig.skip(done),
            key_views(out@) == dedupe_spec(ks.take(done)),
        decreases keys.len(),
    {
        let k = keys.remove(0);
        proof {
            assert(ks.take(done + 1).drop_last() =~= ks.take(done));
            assert(ks[done] == k@);
            assert(keys@ =~= orig.skip(done + 1));
        }
        if !k.normalized.as_str().is_empty() {
            let ghost outv = key_views(out@);
            proof {
                lemma_normal_index(outv, k@.normalized);
            }
            let mut idx: usize = 0;
            let mut found = false;
            while idx < out.len() && !found
                invariant
                    idx <= out.len(),
                    outv == key_views(out@),
                    found ==> idx < out.len() && out@[idx as int].normalized@ == k.normalized@,
                    forall|j: int| 0 <= j < idx ==> out@[j].normalized@ != k.normalized@,
                decreases out.len() - idx + if found { 0int } else { 1int },
            {
                if crate::text::str_eq(out[idx].normalized.as_str(), k.normalized.as_str()) {
                    found = true;
                } else {
                    idx += 1;
                }
            }
            if found {
                proof {
                    assert forall|j: int| 0 <= j < idx implies outv[j].normalized != k@.normalized by {
                        assert(outv[j] == out@[j]@);
                    }
                    assert(outv[idx as int] == out@[idx as int]@);
                    assert(normal_index(outv, k@.normalized) == Some(idx as int));
                }
                if k.exact_path && !out[idx].exact_path {
                    out.set(idx, k);
                    assert(key_views(out@) =~= outv.update(idx as int, k@));
                }
            } else {
                proof {
                    assert forall|j: int| 0 <= j < outv.len() implies outv[j].normalized != k@.normalized by {
                        assert(outv[j] == out@[j]@);
                    }
                }
                let ghost kv = k@;
                out.push(k);
                assert(key_views(out@) =~= outv.push(kv));
            }
        } else {
            assert(k@.normalized.len() == 0);
        }
        proof {
            done = done + 1;
        }
    }
    assert(ks.take(done) =~= ks);
    out
}

/// The key of the metadata entry `name`, if there is one.
pub open spec fn meta_key(meta: Seq<(Seq<char>, Seq<char>)>, name: Seq<char>, exact_path: bool) -> Seq<LinkKeyView> {
    match pairs_get(meta, name) {
        Some(v) => seq![link_key(v, exact_path)],
        None => Seq::empty(),
    }
}

/// The key of an optional text.
pub open spec fn opt_key(o: Option<Seq<char>>, exact_path: bool) -> Seq<LinkKeyView> {
    match o {
        Some(v) => seq![link_key(v, exact_path)],
        None => Seq::empty(),
    }
}

/// The keys of a definition node: its projection, predicate, impl, alias and definition keys,
/// its path (exact), its label and its source, deduplicated.
pub open spec fn definition_keys_spec(n: DefNodeView) -> Seq<LinkKeyView> {
    dedupe_spec(
        meta_key(n.metadata, "projection_key"@, false) + meta_key(n.metadata, "predicate_key"@, false) + meta_key(
            n.metadata,
            "impl_key"@,
            false,
        ) + meta_key(n.metadata, "alias_key"@, false) + meta_key(n.metadata, "definition_key"@, false) + opt_key(
            n.def_path,
            true,
        ) + seq![link_key(n.label, false)] + opt_key(n.source, false),
    )
}

/// The keys of a solver subject: its owner path and path (exact), its clause and its label
/// (exact), deduplicated.
pub open spec fn subject_keys_spec(s: SubjectView) -> Seq<LinkKeyView> {
    dedupe_spec(
        meta_key(s.metadata, "owner_path"@, true) + meta_key(s.metadata, "path"@, true) + meta_key(
            s.metadata,
            "clause"@,
            false,
        ) + seq![link_key(s.label, true)],
    )
}

pub open spec fn text_keys(ts: Seq<Seq<char>>) -> Seq<LinkKeyView> {
    ts.map_values(|t: Seq<char>| link_key(t, false))
}

/// The keys of a predicate: its parts, then its whole text, deduplicated.
pub open spec fn predicate_keys_spec(p: PredicateView) -> Seq<LinkKeyView> {
    dedupe_spec(
        match p {
            PredicateView::DebugText(t) => seq![link_key(t, false)],
            PredicateView::TraitPredicate { trait_path, self_ty, args } => seq![
                link_key(trait_path, false),
                link_key(self_ty, false),
            ] + text_keys(args),
            PredicateView::AliasRelate { lhs, rhs } => seq![link_key(lhs, false), link_key(rhs, false)],
            PredicateView::NormalizesTo { alias, target } => seq![link_key(alias, false), link_key(target, false)],
            PredicateView::Unknown => Seq::empty(),
        } + seq![link_key(predicate_text(p), false)],
    )
}

/// The keys of a candidate: its impl key (exact) and its raw kind, deduplicated.
pub open spec fn candidate_keys_spec(c: CandidateView) -> Seq<LinkKeyView> {
    dedupe_spec(meta_key(c.metadata, "impl_key"@, true) + meta_key(c.metadata, "raw_candidate_kind"@, false))
}

fn push_meta_key(keys: &mut Vec<LinkKey>, meta: &crate::strmap::StrMap, name: &str, exact_path: bool)
    ensures
        key_views(final(keys)@) == key_views(old(keys)@) + meta_key(meta@, name@, exact_path),
{
    let ghost before = key_views(keys@);
    match meta.get(name) {
        Some(v) => {
            keys.push(LinkKey::new(v.as_str(), exact_path));
            assert(key_views(keys@) =~= before + meta_key(meta@, name@, exact_path));
        },
        None => {
            assert(key_views(keys@) =~= before + meta_key(meta@, name@, exact_path));
        },
    }
}

fn push_opt_key(keys: &mut Vec<LinkKey>, o: &Option<String>, exact_path: bool)
    ensures
        key_views(final(keys)@) == key_views(old(keys)@) + opt_key(
            match o {
                Some(v) => Some(v@),
                None => None,
            },
            exact_path,
        ),
{
    let ghost before = key_views(keys@);
    match o {
        Some(v) => {
            keys.push(LinkKey::new(v.as_str(), exact_path));
        },
        None => {},
    }
    assert(key_views(keys@) =~= before + opt_key(
        match o {
            Some(v) => Some(v@),
            None => None,
        },
        exact_path,
    ));
}

fn push_key(keys: &mut Vec<LinkKey>, raw: &str, exact_path: bool)
    ensures
        key_views(final(keys)@) == key_views(old(keys)@).push(link_key(raw@, exact_path)),
{
    let ghost before = key_views(keys@);
    keys.push(LinkKey::new(raw, exact_path));
    assert(key_views(keys@) =~= before.push(link_key(raw@, exact_path)));
}

/// The keys of a definition node (see [`definition_keys_spec`]).
pub fn definition_link_keys(node: &DefinitionNode) -> (r: Vec<LinkKey>)
    ensures
        key_views(r@) == definition_keys_spec(node@),
{
    let mut keys: Vec<LinkKey> = Vec::new();
    assert(key_views(keys@) =~= Seq::<LinkKeyView>::empty());
    push_meta_key(&mut keys, &node.metadata, "projection_key", false);
    push_meta_key(&mut keys, &node.metadata, "predicate_key", false);
    push_meta_key(&mut keys, &node.metadata, "impl_key", false);
    push_meta_key(&mut keys, &node.metadata, "alias_key", false);
    push_meta_key(&mut keys, &node.metadata, "definition_key", false);
    push_opt_key(&mut keys, &node.def_path, true);
    push_key(&mut keys, node.label.as_str(), false);
    push_opt_key(&mut keys, &node.source, false);
    let ghost all = key_views(keys@);
    let ghost n = node@;
    assert(all =~= meta_key(n.metadata, "projection_key"@, false) + meta_key(n.metadata, "predicate_key"@, false)
        + meta_key(n.metadata, "impl_key"@, false) + meta_key(n.metadata, "alias_key"@, false) + meta_key(
        n.metadata,
        "definition_key"@,
        false,
    ) + opt_key(n.def_path, true) + seq![link_key(n.label, false)] + opt_key(n.source, false));
    dedupe_keys(keys)
}

/// The keys of a solver subject (see [`subject_keys_spec`]).
pub fn subject_link_keys(subject: &GoalTreeSubject) -> (r: Vec<LinkKey>)
    ensures
        key_views(r@) == subject_keys_spec(subject@),
{
    let mut keys: Vec<LinkKey> = Vec::new();
    assert(key_views(keys@) =~= Seq::<LinkKeyView>::empty());
    push_meta_key(&mut keys, &subject.metadata, "owner_path", true);
    push_meta_key(&mut keys, &subject.metadata, "path", true);
    push_meta_key(&mut keys, &subject.metadata, "clause", false);
    push_key(&mut keys, subject.label.as_str(), true);
    let ghost s = subject@;
    assert(key_views(keys@) =~= meta_key(s.metadata, "owner_path"@, true) + meta_key(s.metadata, "path"@, true)
        + meta_key(s.metadata, "clause"@, false) + seq![link_key(s.label, true)]);
    dedupe_keys(keys)
}

/// The keys of a predicate (see [`predicate_keys_spec`]).
pub fn predicate_link_keys(predicate: &PredicateRepr) -> (r: Vec<LinkKey>)
    ensures
        key_views(r@) == predicate_keys_spec(predicate@),
{
    let mut keys: Vec<LinkKey> = Vec::new();
    assert(key_views(keys@) =~= Seq::<LinkKeyView>::empty());
    match predicate {
        PredicateRepr::DebugText(text) => push_key(&mut keys, text.as_str(), false),
        PredicateRepr::TraitPredicate { trait_path, self_ty, args } => {
            push_key(&mut keys, trait_path.as_str(), false);
            push_key(&mut keys, self_ty.as_str(), false);
            let ghost base = key_views(keys@);
            let mut i: usize = 0;
            while i < args.len()
                invariant
                    i <= args.len(),
                    key_views(keys@) == base + text_keys(crate::text::texts(args@).take(i as int)),
                decreases args.len() - i,
            {
                push_key(&mut keys, args[i].as_str(), false);
                assert(text_keys(crate::text::texts(args@).take(i + 1)) =~= text_keys(
                    crate::text::texts(args@).take(i as int),
                ).push(link_key(args@[i as int]@, false)));
                i += 1;
            }
            assert(crate::text::texts(args@).take(i as int) =~= crate::text::texts(args@));
        },
        PredicateRepr::AliasRelate { lhs, rhs } => {
            push_key(&mut keys, lhs.as_str(), false);
            push_key(&mut keys, rhs.as_str(), false);
        },
        PredicateRepr::NormalizesTo { alias, target } => {
            push_key(&mut keys, alias.as_str(), false);
            push_key(&mut keys, target.as_str(), false);
        },
        PredicateRepr::Unknown => {},
    }
    let text = predicate.debug_text();
    push_key(&mut keys, text.as_str(), false);
    let ghost p = predicate@;
    assert(key_views(keys@) =~= match p {
        PredicateView::DebugText(t) => seq![link_key(t, false)],
        PredicateView::TraitPredicate { trait_path, self_ty, args } => seq![
            link_key(trait_path, false),
            link_key(self_ty, false),
        ] + text_keys(args),
        PredicateView::AliasRelate { lhs, rhs } => seq![link_key(lhs, false), link_key(rhs, false)],
        PredicateView::NormalizesTo { alias, target } => seq![link_key(alias, false), link_key(target, false)],
        PredicateView::Unknown => Seq::<LinkKeyView>::empty(),
    } + seq![link_key(predicate_text(p), false)]);
    dedupe_keys(keys)
}

/// The keys of a candidate (see [`candidate_keys_spec`]).
pub fn candidate_link_keys(candidate: &GoalTreeCandidate) -> (r: Vec<LinkKey>)
    ensures
        key_views(r@) == candidate_keys_spec(candidate@),
{
    let mut keys: Vec<LinkKey> = Vec::new();
    assert(key_views(keys@) =~= Seq::<LinkKeyView>::empty());
    push_meta_key(&mut keys, &candidate.metadata, "impl_key", true);
    push_meta_key(&mut keys, &candidate.metadata, "raw_candidate_kind", false);
    let ghost c = candidate@;
    assert(key_views(keys@) =~= meta_key(c.metadata, "impl_key"@, true) + meta_key(c.metadata, "raw_candidate_kind"@, false));
    dedupe_keys(keys)
}

// ---------------------------------------------------------------------------
// The solver entries that can be linked
// ---------------------------------------------------------------------------

/// A goal with the keys it can be linked by: its subject's, then its predicate's.
pub struct SolveGoalLinkData {
    pub id: GoalId,
    pub keys: Vec<LinkKey>,
}

/// A candidate with the keys it can be linked by.
pub struct SolveCandidateLinkData {
    pub id: CandidateId,
    pub keys: Vec<LinkKey>,
}

pub open spec fn goal_data_views(v: Seq<SolveGoalLinkData>) -> Seq<(GoalId, Seq<LinkKeyView>)> {
    v.map_values(|d: SolveGoalLinkData| (d.id, key_views(d.keys@)))
}

pub open spec fn candidate_data_views(v: Seq<SolveCandidateLinkData>) -> Seq<(CandidateId, Seq<LinkKeyView>)> {
    v.map_values(|d: SolveCandidateLinkData| (d.id, key_views(d.keys@)))
}

/// The goal entries of a goal and those under it, the goal first, depth first.
pub open spec fn goal_entries(g: GoalView, sk: Seq<LinkKeyView>) -> Seq<(GoalId, Seq<LinkKeyView>)>
    decreases g,
{
    seq![(g.id, sk + predicate_keys_spec(g.predicate))] + goals_entries(g.children, sk)
}

pub open spec fn goals_entries(gs: Seq<GoalView>, sk: Seq<LinkKeyView>) -> Seq<(GoalId, Seq<LinkKeyView>)>
    decreases gs,
{
    if gs.len() == 0 {
        Seq::empty()
    } else {
        goals_entries(gs.drop_last(), sk) + goal_entries(gs.last(), sk)
    }
}

pub open spec fn candidate_entries(cs: Seq<CandidateView>) -> Seq<(CandidateId, Seq<LinkKeyView>)> {
    cs.map_values(|c: CandidateView| (c.id, candidate_keys_spec(c)))
}

/// The candidate entries of a goal and those under it: its own candidates, then its
/// children's, depth first.
pub open spec fn goal_candidate_entries(g: GoalView) -> Seq<(CandidateId, Seq<LinkKeyView>)>
    decreases g,
{
    candidate_entries(g.candidates) + goals_candidate_entries(g.children)
}

pub open spec fn goals_candidate_entries(gs: Seq<GoalView>) -> Seq<(CandidateId, Seq<LinkKeyView>)>
    decreases gs,
{
    if gs.len() == 0 {
        Seq::empty()
    } else {
        goals_candidate_entries(gs.drop_last()) + goal_candidate_entries(gs.last())
    }
}

/// The goal entries of all subjects, in order.
pub open spec fn subjects_goal_entries(ss: Seq<SubjectView>) -> Seq<(GoalId, Seq<LinkKeyView>)>
    decreases ss.len(),
{
    if ss.len() == 0 {
        Seq::empty()
    } else {
        subjects_goal_entries(ss.drop_last()) + goals_entries(ss.last().roots, subject_keys_spec(ss.last()))
    }
}

/// The candidate entries of all subjects, in order.
pub open spec fn subjects_candidate_entries(ss: Seq<SubjectView>) -> Seq<(CandidateId, Seq<LinkKeyView>)>
    decreases ss.len(),
{
    if ss.len() == 0 {
        Seq::empty()
    } else {
        subjects_candidate_entries(ss.drop_last()) + goals_candidate_entries(ss.last().roots)
    }
}

fn copy_keys(keys: &Vec<LinkKey>) -> (r: Vec<LinkKey>)
    ensures
        key_views(r@) == key_views(keys@),
{
    let mut r: Vec<LinkKey> = Vec::new();
    let mut i: usize = 0;
    while i < keys.len()
        invariant
            i <= keys.len(),
            key_views(r@) == key_views(keys@).take(i as int),
        decreases keys.len() - i,
    {
        let k = &keys[i];
        let nk = LinkKey { raw: k.raw.clone(), normalized: k.normalized.clone(), exact_path: k.exact_path };
        assert(nk@ == key_views(keys@)[i as int]);
        let ghost before = r@;
        r.push(nk);
        assert(key_views(r@) =~= key_views(before).push(nk@));
        assert(key_views(keys@).take(i + 1) =~= key_views(keys@).take(i as int).push(key_views(keys@)[i as int]));
        i += 1;
    }
    assert(key_views(keys@).take(i as int) =~= key_views(keys@));
    r
}

fn collect_goal_link_data(
    goal: &GoalTreeGoal,
    subject_keys: &Vec<LinkKey>,
    goals: &mut Vec<SolveGoalLinkData>,
    candidates: &mut Vec<SolveCandidateLinkData>,
)
    ensures
        goal_data_views(final(goals)@) == goal_data_views(old(goals)@) + goal_entries(goal@, key_views(subject_keys@)),
        candidate_data_views(final(candidates)@) == candidate_data_views(old(candidates)@) + goal_candidate_entries(goal@),
    decreases goal,
{
    let ghost sk = key_views(subject_keys@);
    let ghost g0 = goal_data_views(goals@);
    let ghost c0 = candidate_data_views(candidates@);
    let mut goal_keys = copy_keys(subject_keys);
    let pk = predicate_link_keys(&goal.predicate);
    let mut i: usize = 0;
    while i < pk.len()
        invariant
            i <= pk.len(),
            key_views(goal_keys@) == sk + key_views(pk@).take(i as int),
        decreases pk.len() - i,
    {
        let k = &pk[i];
        let nk = LinkKey { raw: k.raw.clone(), normalized: k.normalized.clone(), exact_path: k.exact_path };
        assert(nk@ == key_views(pk@)[i as int]);
        let ghost before = goal_keys@;
        goal_keys.push(nk);
        assert(key_views(goal_keys@) =~= key_views(before).push(nk@));
        assert(key_views(pk@).take(i + 1) =~= key_views(pk@).take(i as int).push(key_views(pk@)[i as int]));
        assert(key_views(goal_keys@) =~= sk + key_views(pk@).take(i + 1));
        i += 1;
    }
    assert(key_views(pk@).take(i as int) =~= key_views(pk@));
    goals.push(SolveGoalLinkData { id: goal.id, keys: goal_keys });
    assert(goal_data_views(goals@) =~= g0 + seq![(goal.id, sk + predicate_keys_spec(goal.predicate@))]);
    let ghost cs = candidate_views(goal.candidates@);
    let mut j: usize = 0;
    while j < goal.candidates.len()
        invariant
            j <= goal.candidates.len(),
            cs == candidate_views(goal.candidates@),
            candidate_data_views(candidates@) == c0 + candidate_entries(cs.take(j as int)),
        decreases goal.candidates.len() - j,
    {
        let keys = candidate_link_keys(&goal.candidates[j]);
        assert(cs[j as int] == goal.candidates@[j as int]@);
        let ghost before = candidates@;
        let entry = SolveCandidateLinkData { id: goal.candidates[j].id, keys };
        candidates.push(entry);
        assert(candidate_data_views(candidates@) =~= candidate_data_views(before).push((entry.id, key_views(entry.keys@))));
        assert(candidate_entries(cs.take(j + 1)) =~= candidate_entries(cs.take(j as int)).push(
            (cs[j as int].id, candidate_keys_spec(cs[j as int])),
        ));
        assert(candidate_data_views(candidates@) =~= c0 + candidate_entries(cs.take(j + 1)));
        j += 1;
    }
    assert(cs.take(j as int) =~= cs);
    proof {
        lemma_goal_views(goal.children@);
    }
    let ghost all = goal_views(goal.children@);
    let ghost g1 = goal_data_views(goals@);
    let ghost c1 = candidate_data_views(candidates@);
    let mut k: usize = 0;
    assert(all.take(0) =~= Seq::<GoalView>::empty());
    assert(g1 =~= g1 + goals_entries(all.take(0), sk));
    assert(c1 =~= c1 + goals_candidate_entries(all.take(0)));
    while k < goal.children.len()
        invariant
            k <= goal.children.len(),
            sk == key_views(subject_keys@),
            all == goal_views(goal.children@),
            all.len() == goal.children@.len(),
            forall|j: int| 0 <= j < goal.children@.len() ==> #[trigger] all[j] == goal.children@[j].view_goal(),
            goal_data_views(goals@) == g1 + goals_entries(all.take(k as int), sk),
            candidate_data_views(candidates@) == c1 + goals_candidate_entries(all.take(k as int)),
        decreases goal.children.len() - k,
    {
        proof {
            assert(decreases_to!(*goal => goal.children));
        }
        collect_goal_link_data(&goal.children[k], subject_keys, goals, candidates);
        assert(all.take(k + 1).drop_last() =~= all.take(k as int));
        assert(all.take(k + 1).last() == goal.children@[k as int]@);
        assert(goal_data_views(goals@) =~= g1 + goals_entries(all.take(k + 1), sk));
        assert(candidate_data_views(candidates@) =~= c1 + goals_candidate_entries(all.take(k + 1)));
        k += 1;
    }
    assert(all.take(k as int) =~= all);
    assert(goal_data_views(goals@) =~= g0 + goal_entries(goal@, sk));
    assert(candidate_data_views(candidates@) =~= c0 + goal_candidate_entries(goal@));
}

/// The goals and candidates of a solver run with the keys they can be linked by.
pub struct SolveLinkIndex {
    pub goals: Vec<SolveGoalLinkData>,
    pub candidates: Vec<SolveCandidateLinkData>,
}

impl SolveLinkIndex {
    /// The entries of every subject's goals, in order.
    pub fn from_tree(tree: &GoalTree) -> (r: Self)
        ensures
            goal_data_views(r.goals@) == subjects_goal_entries(tree@.subjects),
            candidate_data_views(r.candidates@) == subjects_candidate_entries(tree@.subjects),
    {
        let mut goals: Vec<SolveGoalLinkData> = Vec::new();
        let mut candidates: Vec<SolveCandidateLinkData> = Vec::new();
        let ghost ss = subject_views(tree.subjects@);
        let mut i: usize = 0;
        assert(goal_data_views(goals@) =~= subjects_goal_entries(ss.take(0)));
        assert(candidate_data_views(candidates@) =~= subjects_candidate_entries(ss.take(0)));
        while i < tree.subjects.len()
            invariant
                i <= tree.subjects.len(),
                ss == subject_views(tree.subjects@),
                goal_data_views(goals@) == subjects_goal_entries(ss.take(i as int)),
                candidate_data_views(candidates@) == subjects_candidate_entries(ss.take(i as int)),
            decreases tree.subjects.len() - i,
        {
            let subject = &tree.subjects[i];
            let subject_keys = subject_link_keys(subject);
            proof {
                lemma_goal_views(subject.roots@);
            }
            let ghost roots = goal_views(subject.roots@);
            let ghost sk = key_views(subject_keys@);
            let ghost g1 = goal_data_views(goals@);
            let ghost c1 = candidate_data_views(candidates@);
            let mut k: usize = 0;
            assert(roots.take(0) =~= Seq::<GoalView>::empty());
            assert(g1 =~= g1 + goals_entries(roots.take(0), sk));
            assert(c1 =~= c1 + goals_candidate_entries(roots.take(0)));
            while k < subject.roots.len()
                invariant
                    k <= subject.roots.len(),
                    sk == key_views(subject_keys@),
                    roots == goal_views(subject.roots@),
                    roots.len() == subject.roots@.len(),
                    forall|j: int| 0 <= j < subject.roots@.len() ==> #[trigger] roots[j] == subject.roots@[j].view_goal(),
                    goal_data_views(goals@) == g1 + goals_entries(roots.take(k as int), sk),
                    candidate_data_views(candidates@) == c1 + goals_candidate_entries(roots.take(k as int)),
                decreases subject.roots.len() - k,
            {
                collect_goal_link_data(&subject.roots[k], &subject_keys, &mut goals, &mut candidates);
                assert(roots.take(k + 1).drop_last() =~= roots.take(k as int));
                assert(roots.take(k + 1).last() == subject.roots@[k as int]@);
                assert(goal_data_views(goals@) =~= g1 + goals_entries(roots.take(k + 1), sk));
                assert(candidate_data_views(candidates@) =~= c1 + goals_candidate_entries(roots.take(k + 1)));
                k += 1;
            }
            assert(roots.take(k as int) =~= roots);
            assert(ss.take(i + 1).drop_last() =~= ss.take(i as int));
            assert(ss.take(i + 1).last() == subject@);
            assert(subject@.roots == roots);
            assert(goal_data_views(goals@) =~= subjects_goal_entries(ss.take(i + 1)));
            assert(candidate_data_views(candidates@) =~= subjects_candidate_entries(ss.take(i + 1)));
            i += 1;
        }
        assert(ss.take(i as int) =~= ss);
        SolveLinkIndex { goals, candidates }
    }
}

// ---------------------------------------------------------------------------
// Matching keys
// ---------------------------------------------------------------------------

/// How sure a link is, from least to most sure.
#[derive(Debug, Clone, Copy, PartialEq, Eq, PartialOrd, Ord, Hash, Structural)]
pub enum DefinitionSolveLinkConfidence {
    FallbackText,
    NormalizedText,
    ExactPath,
}

pub open spec fn confidence_rank(c: DefinitionSolveLinkConfidence) -> int {
    match c {
        DefinitionSolveLinkConfidence::FallbackText => 0,
        DefinitionSolveLinkConfidence::NormalizedText => 1,
        DefinitionSolveLinkConfidence::ExactPath => 2,
    }
}

fn confidence_above(a: DefinitionSolveLinkConfidence, b: DefinitionSolveLinkConfidence) -> (r: bool)
    ensures
        r == (confidence_rank(a) > confidence_rank(b)),
{
    let ra: u8 = match a {
        DefinitionSolveLinkConfidence::FallbackText => 0,
        DefinitionSolveLinkConfidence::NormalizedText => 1,
        DefinitionSolveLinkConfidence::ExactPath => 2,
    };
    let rb: u8 = match b {
        DefinitionSolveLinkConfidence::FallbackText => 0,
        DefinitionSolveLinkConfidence::NormalizedText => 1,
        DefinitionSolveLinkConfidence::ExactPath => 2,
    };
    ra > rb
}

/// A normal form long enough and shaped enough to match by: at least eight bytes, holding a
/// path separator, a `<` or the letters `as`.
pub open spec fn is_substantial(v: Seq<char>) -> bool {
    crate::tally::utf8_len(v) >= 8 && (seq_contains(v, "::"@) || v.contains('<') || seq_contains(v, "as"@))
}

/// Both normal forms are substantial and one holds the other.
pub open spec fn contains_substantial_spec(left: Seq<char>, right: Seq<char>) -> bool {
    is_substantial(left) && is_substantial(right) && (seq_contains(left, right) || seq_contains(right, left))
}

/// The kinds of node that may be linked by a loose text match.
pub open spec fn allows_fallback(k: DefinitionNodeKind) -> bool {
    k == DefinitionNodeKind::Projection || k == DefinitionNodeKind::WherePredicate || k
        == DefinitionNodeKind::ImplBranch || k == DefinitionNodeKind::AssociatedTypeBody || k
        == DefinitionNodeKind::TypeAlias
}

/// How a definition key matches a solver key: the same exact path, or an exact path with a
/// separator that the solver key holds; the same substantial normal form; or, for the kinds
/// that allow it, one substantial normal form inside the other.
pub open spec fn pair_confidence(kind: DefinitionNodeKind, dk: LinkKeyView, sk: LinkKeyView) -> Option<
    DefinitionSolveLinkConfidence,
> {
    if dk.exact_path && sk.exact_path && dk.raw == sk.raw {
        Some(DefinitionSolveLinkConfidence::ExactPath)
    } else if dk.exact_path && seq_contains(sk.raw, dk.raw) && seq_contains(dk.raw, "::"@) {
        Some(DefinitionSolveLinkConfidence::ExactPath)
    } else if dk.normalized == sk.normalized && is_substantial(dk.normalized) {
        Some(DefinitionSolveLinkConfidence::NormalizedText)
    } else if allows_fallback(kind) && contains_substantial_spec(dk.normalized, sk.normalized) {
        Some(DefinitionSolveLinkConfidence::FallbackText)
    } else {
        None
    }
}

/// The best match so far after one more pair: replaced only by a strictly surer one.
pub open spec fn better_match(
    best: Option<(DefinitionSolveLinkConfidence, Seq<char>)>,
    c: Option<DefinitionSolveLinkConfidence>,
    raw: Seq<char>,
) -> Option<(DefinitionSolveLinkConfidence, Seq<char>)> {
    match c {
        Some(conf) => match best {
            Some(b) => if confidence_rank(conf) > confidence_rank(b.0) {
                Some((conf, raw))
            } else {
                best
            },
            None => Some((conf, raw)),
        },
        None => best,
    }
}

/// The best match after pairing definition key `dk` with each solver key in turn.
pub open spec fn match_row(
    kind: DefinitionNodeKind,
    dk: LinkKeyView,
    sks: Seq<LinkKeyView>,
    best: Option<(DefinitionSolveLinkConfidence, Seq<char>)>,
) -> Option<(DefinitionSolveLinkConfidence, Seq<char>)>
    decreases sks.len(),
{
    if sks.len() == 0 {
        best
    } else {
        better_match(match_row(kind, dk, sks.drop_last(), best), pair_confidence(kind, dk, sks.last()), dk.raw)
    }
}

/// The surest match of any definition key with any solver key, the first found among equals,
/// with the definition key's text.
pub open spec fn match_keys_spec(kind: DefinitionNodeKind, dks: Seq<LinkKeyView>, sks: Seq<LinkKeyView>) -> Option<
    (DefinitionSolveLinkConfidence, Seq<char>),
>
    decreases dks.len(),
{
    if dks.len() == 0 {
        None
    } else {
        match_row(kind, dks.last(), sks, match_keys_spec(kind, dks.drop_last(), sks))
    }
}

fn is_substantial_key(value: &str) -> (b: bool)
    ensures
        b == is_substantial(value@),
{
    let v = str_chars(value);
    let mut bytes: usize = 0;
    let mut i: usize = 0;
    assert(v@.take(0) =~= Seq::<char>::empty());
    while i < v.len() && bytes < 8
        invariant
            i <= v.len(),
            v@ == value@,
            bytes == crate::tally::utf8_len(v@.take(i as int)),
            bytes < 12,
        decreases v.len() - i,
    {
        proof {
            crate::tally::lemma_utf8_len_take_step(v@, i as int);
        }
        bytes = bytes + crate::tally::char_width(v[i]);
        i += 1;
    }
    if bytes < 8 {
        assert(v@.take(i as int) =~= v@);
        return false;
    }
    proof {
        crate::tally::lemma_utf8_len_take_mono(v@, i as int, v@.len() as int);
        assert(v@.take(v@.len() as int) =~= v@);
    }
    crate::text::str_contains(value, "::") || crate::text::has_char(&v, '<') || crate::text::str_contains(value, "as")
}

fn contains_substantial(left: &str, right: &str) -> (b: bool)
    ensures
        b == contains_substantial_spec(left@, right@),
{
    if !is_substantial_key(left) || !is_substantial_key(right) {
        return false;
    }
    crate::text::str_contains(left, right) || crate::text::str_contains(right, left)
}

fn allow_fallback_text(kind: DefinitionNodeKind) -> (b: bool)
    ensures
        b == allows_fallback(kind),
{
    match kind {
        DefinitionNodeKind::Projection | DefinitionNodeKind::WherePredicate | DefinitionNodeKind::ImplBranch
        | DefinitionNodeKind::AssociatedTypeBody | DefinitionNodeKind::TypeAlias => true,
        _ => false,
    }
}

fn key_pair_confidence(kind: DefinitionNodeKind, dk: &LinkKey, sk: &LinkKey) -> (r: Option<DefinitionSolveLinkConfidence>)
    ensures
        r == pair_confidence(kind, dk@, sk@),
{
    if dk.exact_path && sk.exact_path && crate::text::str_eq(dk.raw.as_str(), sk.raw.as_str()) {
        Some(DefinitionSolveLinkConfidence::ExactPath)
    } else if dk.exact_path && crate::text::str_contains(sk.raw.as_str(), dk.raw.as_str()) && crate::text::str_contains(
        dk.raw.as_str(),
        "::",
    ) {
        Some(DefinitionSolveLinkConfidence::ExactPath)
    } else if crate::text::str_eq(dk.normalized.as_str(), sk.normalized.as_str()) && is_substantial_key(
        dk.normalized.as_str(),
    ) {
        Some(DefinitionSolveLinkConfidence::NormalizedText)
    } else if allow_fallback_text(kind) && contains_substantial(dk.normalized.as_str(), sk.normalized.as_str()) {
        Some(DefinitionSolveLinkConfidence::FallbackText)
    } else {
        None
    }
}

pub open spec fn opt_match_view(o: Option<(DefinitionSolveLinkConfidence, String)>) -> Option<
    (DefinitionSolveLinkConfidence, Seq<char>),
> {
    match o {
        Some((c, s)) => Some((c, s@)),
        None => None,
    }
}

/// The surest match of the definition keys with the solver keys (see [`match_keys_spec`]).
pub fn match_link_keys(kind: DefinitionNodeKind, definition_keys: &Vec<LinkKey>, solve_keys: &Vec<LinkKey>) -> (r: Option<
    (DefinitionSolveLinkConfidence, String),
>)
    ensures
        opt_match_view(r) == match_keys_spec(kind, key_views(definition_keys@), key_views(solve_keys@)),
{
    let ghost dks = key_views(definition_keys@);
    let ghost sks = key_views(solve_keys@);
    let mut best: Option<(DefinitionSolveLinkConfidence, String)> = None;
    let mut i: usize = 0;
    assert(dks.take(0) =~= Seq::<LinkKeyView>::empty());
    while i < definition_keys.len()
        invariant
            i <= definition_keys.len(),
            dks == key_views(definition_keys@),
            sks == key_views(solve_keys@),
            opt_match_view(best) == match_keys_spec(kind, dks.take(i as int), sks),
        decreases definition_keys.len() - i,
    {
        let dk = &definition_keys[i];
        let ghost start = opt_match_view(best);
        let mut j: usize = 0;
        assert(sks.take(0) =~= Seq::<LinkKeyView>::empty());
        while j < solve_keys.len()
            invariant
                j <= solve_keys.len(),
                i < definition_keys.len(),
                dks == key_views(definition_keys@),
                sks == key_views(solve_keys@),
                dk@ == dks[i as int],
                opt_match_view(best) == match_row(kind, dks[i as int], sks.take(j as int), start),
            decreases solve_keys.len() - j,
        {
            let c = key_pair_confidence(kind, dk, &solve_keys[j]);
            assert(sks[j as int] == solve_keys@[j as int]@);
            assert(sks.take(j + 1).drop_last() =~= sks.take(j as int));
            match c {
                Some(conf) => {
                    let replace = match &best {
                        Some((current, _)) => confidence_above(conf, *current),
                        None => true,
                    };
                    if replace {
                        best = Some((conf, dk.raw.clone()));
                    }
                },
                None => {},
            }
            j += 1;
        }
        assert(sks.take(j as int) =~= sks);
        assert(dks.take(i + 1).drop_last() =~= dks.take(i as int));
        i += 1;
    }
    assert(dks.take(i as int) =~= dks);
    best
}

// ---------------------------------------------------------------------------
// Links
// ---------------------------------------------------------------------------

/// A definition node linked to the goals and candidates that speak of it.
#[derive(Debug, Clone, PartialEq, Eq)]
pub struct DefinitionSolveLink {
    pub def_node_id: NodeId,
    pub goal_ids: Vec<GoalId>,
    pub candidate_ids: Vec<CandidateId>,
    pub link_key: String,
    pub confidence: DefinitionSolveLinkConfidence,
}

/// The links of a definition graph to a solver run.
#[derive(Debug, Clone, PartialEq, Eq)]
pub struct DefinitionSolveLinks {
    pub links: Vec<DefinitionSolveLink>,
}

/// What a link says, as values: the identifiers as sets.
pub struct LinkSummary {
    pub def_node_id: NodeId,
    pub goal_ids: Set<u64>,
    pub candidate_ids: Set<u64>,
    pub link_key: Seq<char>,
    pub confidence: DefinitionSolveLinkConfidence,
}

/// The solver entries with plain identifiers.
pub open spec fn goal_id_entries(es: Seq<(GoalId, Seq<LinkKeyView>)>) -> Seq<(u64, Seq<LinkKeyView>)> {
    es.map_values(|e: (GoalId, Seq<LinkKeyView>)| (e.0.0, e.1))
}

pub open spec fn candidate_id_entries(es: Seq<(CandidateId, Seq<LinkKeyView>)>) -> Seq<(u64, Seq<LinkKeyView>)> {
    es.map_values(|e: (CandidateId, Seq<LinkKeyView>)| (e.0.0, e.1))
}

/// The identifiers of the entries that match `keys`.
pub open spec fn matched_ids(kind: DefinitionNodeKind, keys: Seq<LinkKeyView>, es: Seq<(u64, Seq<LinkKeyView>)>) -> Set<u64>
    decreases es.len(),
{
    if es.len() == 0 {
        Set::empty()
    } else {
        let s = matched_ids(kind, keys, es.drop_last());
        if match_keys_spec(kind, keys, es.last().1) is Some {
            s.insert(es.last().0)
        } else {
            s
        }
    }
}

/// The surest match over the entries in turn, starting from `init`; a match replaces the one
/// held only when it is strictly surer.
pub open spec fn scan_best(
    kind: DefinitionNodeKind,
    keys: Seq<LinkKeyView>,
    es: Seq<(u64, Seq<LinkKeyView>)>,
    init: (DefinitionSolveLinkConfidence, Seq<char>),
) -> (DefinitionSolveLinkConfidence, Seq<char>)
    decreases es.len(),
{
    if es.len() == 0 {
        init
    } else {
        let b = scan_best(kind, keys, es.drop_last(), init);
        match match_keys_spec(kind, keys, es.last().1) {
            Some(m) => if confidence_rank(m.0) > confidence_rank(b.0) {
                m
            } else {
                b
            },
            None => b,
        }
    }
}

/// The link of a node: with keys, and matching at least one goal or candidate, it links the
/// matching ones, with the surest match's key (the node's first key where no match beats a
/// loose text match).
pub open spec fn link_summary(
    n: DefNodeView,
    goals: Seq<(u64, Seq<LinkKeyView>)>,
    cands: Seq<(u64, Seq<LinkKeyView>)>,
) -> Option<LinkSummary> {
    let keys = definition_keys_spec(n);
    if keys.len() == 0 {
        None
    } else {
        let b1 = scan_best(n.kind, keys, goals, (DefinitionSolveLinkConfidence::FallbackText, keys[0].raw));
        let b2 = scan_best(n.kind, keys, cands, b1);
        let g = matched_ids(n.kind, keys, goals);
        let c = matched_ids(n.kind, keys, cands);
        if g.is_empty() && c.is_empty() {
            None
        } else {
            Some(LinkSummary { def_node_id: n.id, goal_ids: g, candidate_ids: c, link_key: b2.1, confidence: b2.0 })
        }
    }
}

/// The links of the nodes, in node order.
pub open spec fn link_summaries(
    ns: Seq<DefNodeView>,
    goals: Seq<(u64, Seq<LinkKeyView>)>,
    cands: Seq<(u64, Seq<LinkKeyView>)>,
) -> Seq<LinkSummary>
    decreases ns.len(),
{
    if ns.len() == 0 {
        Seq::empty()
    } else {
        let rest = link_summaries(ns.drop_last(), goals, cands);
        match link_summary(ns.last(), goals, cands) {
            Some(l) => rest.push(l),
            None => rest,
        }
    }
}

pub open spec fn id_set(s: Seq<u64>) -> Set<u64> {
    Set::new(|x: u64| s.contains(x))
}

pub open spec fn ascending_ids(s: Seq<u64>) -> bool {
    forall|i: int, j: int| 0 <= i < j < s.len() ==> s[i] < s[j]
}

pub open spec fn goal_id_values(v: Seq<GoalId>) -> Seq<u64> {
    v.map_values(|g: GoalId| g.0)
}

pub open spec fn candidate_id_values(v: Seq<CandidateId>) -> Seq<u64> {
    v.map_values(|c: CandidateId| c.0)
}

/// `l` states the link `s`: its identifiers ascending, each once.
pub open spec fn link_agrees(l: DefinitionSolveLink, s: LinkSummary) -> bool {
    &&& l.def_node_id == s.def_node_id
    &&& ascending_ids(goal_id_values(l.goal_ids@))
    &&& id_set(goal_id_values(l.goal_ids@)) == s.goal_ids
    &&& ascending_ids(candidate_id_values(l.candidate_ids@))
    &&& id_set(candidate_id_values(l.candidate_ids@)) == s.candidate_ids
    &&& l.link_key@ == s.link_key
    &&& l.confidence == s.confidence
}

pub open spec fn links_agree(ls: Seq<DefinitionSolveLink>, ss: Seq<LinkSummary>) -> bool {
    ls.len() == ss.len() && forall|i: int| 0 <= i < ls.len() ==> link_agrees(#[trigger] ls[i], ss[i])
}

/// Adds `x` to an ascending list of identifiers.
fn insert_sorted(v: &mut Vec<u64>, x: u64)
    requires
        ascending_ids(old(v)@),
    ensures
        ascending_ids(final(v)@),
        id_set(final(v)@) == id_set(old(v)@).insert(x),
{
    let ghost before = v@;
    let mut i: usize = 0;
    while i < v.len() && v[i] < x
        invariant
            i <= v.len(),
            v@ == before,
            ascending_ids(before),
            forall|j: int| 0 <= j < i ==> v@[j] < x,
        decreases v.len() - i,
    {
        i += 1;
    }
    if i < v.len() && v[i] == x {
        assert(id_set(v@) =~= id_set(before).insert(x));
        return ;
    }
    v.insert(i, x);
    proof {
        assert forall|a: int, b: int| 0 <= a < b < v@.len() implies v@[a] < v@[b] by {
            if b < i {
            } else if a < i && b == i {
            } else if a < i && b > i {
                assert(v@[b] == before[b - 1]);
                assert(before[i as int] > x);
                if b - 1 > i {
                    assert(before[i as int] < before[b - 1]);
                }
            } else if a == i {
                assert(v@[b] == before[b - 1]);
                if b - 1 > i {
                    assert(before[i as int] < before[b - 1]);
                }
            } else {
                assert(v@[a] == before[a - 1]);
                assert(v@[b] == before[b - 1]);
            }
        }
        assert forall|y: u64| #[trigger] id_set(v@).contains(y) == id_set(before).insert(x).contains(y) by {
            if before.contains(y) {
                let k = choose|k: int| 0 <= k < before.len() && before[k] == y;
                if k < i {
                    assert(v@[k] == y);
                } else {
                    assert(v@[k + 1] == y);
                }
            }
            if v@.contains(y) {
                let k = choose|k: int| 0 <= k < v@.len() && v@[k] == y;
                if k < i {
                    assert(before[k] == y);
                } else if k > i {
                    assert(before[k - 1] == y);
                }
            }
            assert(v@[i as int] == x);
        }
        assert(id_set(v@) =~= id_set(before).insert(x));
    }
}

fn to_goal_ids(v: &Vec<u64>) -> (r: Vec<GoalId>)
    ensures
        goal_id_values(r@) == v@,
{
    let mut r: Vec<GoalId> = Vec::new();
    let mut i: usize = 0;
    while i < v.len()
        invariant
            i <= v.len(),
            goal_id_values(r@) == v@.take(i as int),
        decreases v.len() - i,
    {
        let ghost before = r@;
        r.push(GoalId(v[i]));
        assert(goal_id_values(r@) =~= goal_id_values(before).push(v@[i as int]));
        assert(v@.take(i + 1) =~= v@.take(i as int).push(v@[i as int]));
        i += 1;
    }
    assert(v@.take(i as int) =~= v@);
    r
}

fn to_candidate_ids(v: &Vec<u64>) -> (r: Vec<CandidateId>)
    ensures
        candidate_id_values(r@) == v@,
{
    let mut r: Vec<CandidateId> = Vec::new();
    let mut i: usize = 0;
    while i < v.len()
        invariant
            i <= v.len(),
            candidate_id_values(r@) == v@.take(i as int),
        decreases v.len() - i,
    {
        let ghost before = r@;
        r.push(CandidateId(v[i]));
        assert(candidate_id_values(r@) =~= candidate_id_values(before).push(v@[i as int]));
        assert(v@.take(i + 1) =~= v@.take(i as int).push(v@[i as int]));
        i += 1;
    }
    assert(v@.take(i as int) =~= v@);
    r
}

/// Scans `entries` for matches of `keys`, from the best match `init`: the identifiers that
/// match, and the best match after them.
fn scan_entries(
    kind: DefinitionNodeKind,
    keys: &Vec<LinkKey>,
    ids: &Vec<u64>,
    entries: &Vec<&Vec<LinkKey>>,
    init: (DefinitionSolveLinkConfidence, String),
) -> (r: (Vec<u64>, (DefinitionSolveLinkConfidence, String)))
    requires
        ids.len() == entries.len(),
    ensures
        ascending_ids(r.0@),
        id_set(r.0@) == matched_ids(kind, key_views(keys@), zip_entries(ids@, entries@)),
        (r.1.0, r.1.1@) == scan_best(kind, key_views(keys@), zip_entries(ids@, entries@), (init.0, init.1@)),
{
    let ghost es = zip_entries(ids@, entries@);
    let ghost kv = key_views(keys@);
    let mut found: Vec<u64> = Vec::new();
    let mut best = init.0;
    let mut best_key = init.1;
    let ghost start = (best, best_key@);
    let mut j: usize = 0;
    assert(es.take(0) =~= Seq::<(u64, Seq<LinkKeyView>)>::empty());
    assert(id_set(found@) =~= Set::<u64>::empty());
    while j < entries.len()
        invariant
            j <= entries.len(),
            ids.len() == entries.len(),
            es == zip_entries(ids@, entries@),
            kv == key_views(keys@),
            ascending_ids(found@),
            id_set(found@) == matched_ids(kind, kv, es.take(j as int)),
            (best, best_key@) == scan_best(kind, kv, es.take(j as int), start),
        decreases entries.len() - j,
    {
        let m = match_link_keys(kind, keys, entries[j]);
        assert(es.take(j + 1).drop_last() =~= es.take(j as int));
        assert(es[j as int] == (ids@[j as int], key_views(entries@[j as int]@)));
        match m {
            Some((c, k)) => {
                insert_sorted(&mut found, ids[j]);
                if confidence_above(c, best) {
                    best = c;
                    best_key = k;
                }
            },
            None => {},
        }
        j += 1;
    }
    assert(es.take(j as int) =~= es);
    (found, (best, best_key))
}

/// Identifiers paired with key lists.
pub open spec fn zip_entries(ids: Seq<u64>, entries: Seq<&Vec<LinkKey>>) -> Seq<(u64, Seq<LinkKeyView>)> {
    Seq::new(ids.len(), |i: int| (ids[i], key_views(entries[i]@)))
}

/// Links each definition node to the goals and candidates of `tree` that speak of it (see
/// [`link_summaries`]).
pub fn build_definition_solve_links(graph: &DefinitionGraph, tree: &GoalTree) -> (r: DefinitionSolveLinks)
    ensures
        links_agree(
            r.links@,
            link_summaries(
                node_views(graph.nodes@),
                goal_id_entries(subjects_goal_entries(tree@.subjects)),
                candidate_id_entries(subjects_candidate_entries(tree@.subjects)),
            ),
        ),
{
    let index = SolveLinkIndex::from_tree(tree);
    let ghost goals = goal_id_entries(subjects_goal_entries(tree@.subjects));
    let ghost cands = candidate_id_entries(subjects_candidate_entries(tree@.subjects));
    let mut goal_ids: Vec<u64> = Vec::new();
    let mut goal_keys: Vec<&Vec<LinkKey>> = Vec::new();
    let mut a: usize = 0;
    while a < index.goals.len()
        invariant
            a <= index.goals.len(),
            goal_ids.len() == a && goal_keys.len() == a,
            forall|x: int| 0 <= x < a ==> #[trigger] goal_ids@[x] == index.goals@[x].id.0 && goal_keys@[x] == &index.goals@[x].keys,
        decreases index.goals.len() - a,
    {
        goal_ids.push(index.goals[a].id.0);
        goal_keys.push(&index.goals[a].keys);
        a += 1;
    }
    assert(zip_entries(goal_ids@, goal_keys@) =~= goals);
    let mut cand_ids: Vec<u64> = Vec::new();
    let mut cand_keys: Vec<&Vec<LinkKey>> = Vec::new();
    let mut b: usize = 0;
    while b < index.candidates.len()
        invariant
            b <= index.candidates.len(),
            cand_ids.len() == b && cand_keys.len() == b,
            forall|x: int|
                0 <= x < b ==> #[trigger] cand_ids@[x] == index.candidates@[x].id.0 && cand_keys@[x]
                    == &index.candidates@[x].keys,
        decreases index.candidates.len() - b,
    {
        cand_ids.push(index.candidates[b].id.0);
        cand_keys.push(&index.candidates[b].keys);
        b += 1;
    }
    assert(zip_entries(cand_ids@, cand_keys@) =~= cands);
    let ghost ns = node_views(graph.nodes@);
    let mut links: Vec<DefinitionSolveLink> = Vec::new();
    let mut i: usize = 0;
    assert(ns.take(0) =~= Seq::<DefNodeView>::empty());
    while i < graph.nodes.len()
        invariant
            i <= graph.nodes.len(),
            ns == node_views(graph.nodes@),
            goals == zip_entries(goal_ids@, goal_keys@),
            cands == zip_entries(cand_ids@, cand_keys@),
            goal_ids.len() == goal_keys.len(),
            cand_ids.len() == cand_keys.len(),
            links_agree(links@, link_summaries(ns.take(i as int), goals, cands)),
        decreases graph.nodes.len() - i,
    {
        let node = &graph.nodes[i];
        assert(ns.take(i + 1).drop_last() =~= ns.take(i as int));
        assert(ns[i as int] == node@);
        let keys = definition_link_keys(node);
        if keys.len() > 0 {
            let init = (DefinitionSolveLinkConfidence::FallbackText, keys[0].raw.clone());
            assert(key_views(keys@)[0] == keys@[0]@);
            let (g, b1) = scan_entries(node.kind, &keys, &goal_ids, &goal_keys, init);
            let (c, b2) = scan_entries(node.kind, &keys, &cand_ids, &cand_keys, b1);
            if g.len() > 0 || c.len() > 0 {
                proof {
                    if g.len() > 0 {
                        assert(id_set(g@).contains(g@[0]));
                    }
                    if c.len() > 0 {
                        assert(id_set(c@).contains(c@[0]));
                    }
                }
                let link = DefinitionSolveLink {
                    def_node_id: node.id,
                    goal_ids: to_goal_ids(&g),
                    candidate_ids: to_candidate_ids(&c),
                    link_key: b2.1,
                    confidence: b2.0,
                };
                let ghost before = links@;
                links.push(link);
                proof {
                    let sum = link_summary(node@, goals, cands);
                    assert(sum is Some);
                    assert(link_agrees(link, sum->0));
                    assert forall|x: int| 0 <= x < links@.len() implies link_agrees(
                        #[trigger] links@[x],
                        link_summaries(ns.take(i + 1), goals, cands)[x],
                    ) by {
                        if x < before.len() {
                            assert(links@[x] == before[x]);
                        }
                    }
                }
            } else {
                proof {
                    assert(g@.len() == 0);
                    assert(id_set(g@) =~= Set::<u64>::empty());
                    assert(id_set(c@) =~= Set::<u64>::empty());
                }
            }
        }
        i += 1;
    }
    assert(ns.take(i as int) =~= ns);
    DefinitionSolveLinks { links }
}


proof fn lemma_matched_ids_known(kind: DefinitionNodeKind, keys: Seq<LinkKeyView>, es: Seq<(u64, Seq<LinkKeyView>)>)
    ensures
        forall|id: u64| #[trigger] matched_ids(kind, keys, es).contains(id) ==> exists|k: int| 0 <= k < es.len() && es[k].0 == id,
    decreases es.len(),
{
    if es.len() > 0 {
        lemma_matched_ids_known(kind, keys, es.drop_last());
        assert forall|id: u64| #[trigger] matched_ids(kind, keys, es).contains(id) implies exists|k: int|
            0 <= k < es.len() && es[k].0 == id by {
            if matched_ids(kind, keys, es.drop_last()).contains(id) {
                let k = choose|k: int| 0 <= k < es.drop_last().len() && es.drop_last()[k].0 == id;
                assert(es[k].0 == id);
            } else {
                assert(es[es.len() - 1].0 == id);
            }
        }
    }
}

/// Every link names a node of the graph, and only goals and candidates of the solver run.
pub proof fn links_name_only_known_items(
    ns: Seq<DefNodeView>,
    goals: Seq<(u64, Seq<LinkKeyView>)>,
    cands: Seq<(u64, Seq<LinkKeyView>)>,
)
    ensures
        forall|i: int|
            0 <= i < link_summaries(ns, goals, cands).len() ==> {
                let l = #[trigger] link_summaries(ns, goals, cands)[i];
                &&& exists|j: int| 0 <= j < ns.len() && ns[j].id == l.def_node_id
                &&& forall|id: u64| l.goal_ids.contains(id) ==> exists|k: int| 0 <= k < goals.len() && goals[k].0 == id
                &&& forall|id: u64| l.candidate_ids.contains(id) ==> exists|k: int| 0 <= k < cands.len() && cands[k].0 == id
            },
    decreases ns.len(),
{
    if ns.len() > 0 {
        let p = ns.drop_last();
        links_name_only_known_items(p, goals, cands);
        let n = ns.last();
        let keys = definition_keys_spec(n);
        lemma_matched_ids_known(n.kind, keys, goals);
        lemma_matched_ids_known(n.kind, keys, cands);
        let ls = link_summaries(ns, goals, cands);
        let rest = link_summaries(p, goals, cands);
        assert forall|i: int| 0 <= i < ls.len() implies {
            let l = #[trigger] ls[i];
            &&& exists|j: int| 0 <= j < ns.len() && ns[j].id == l.def_node_id
            &&& forall|id: u64| l.goal_ids.contains(id) ==> exists|k: int| 0 <= k < goals.len() && goals[k].0 == id
            &&& forall|id: u64| l.candidate_ids.contains(id) ==> exists|k: int| 0 <= k < cands.len() && cands[k].0 == id
        } by {
            if i < rest.len() {
                assert(ls[i] == rest[i]);
                let l = rest[i];
                let j = choose|j: int| 0 <= j < p.len() && p[j].id == l.def_node_id;
                assert(ns[j] == p[j]);
            } else {
                assert(ns[ns.len() - 1].id == ls[i].def_node_id);
            }
        }
    }
}

} // verus!
