//! Lowering of the solver's debug texts into structured trace values.
use vstd::prelude::*;

use crate::semantic::SemanticTag;
use crate::text::{trim_start, trim_end, occurs_at, copy_str, contains_chars, find_first, find_last, first_occurrence, last_occurrence, lower_seq, seq_contains, slice_range, str_chars, str_contains, string_from_chars, string_from_range, texts, to_lower, trim, trim_chars};
use crate::trace::{candidate_label, CandidateKind, CandidateKindView, GoalResult, PredicateRepr, PredicateView, predicate_text};

verus! {

broadcast use vstd::string::group_string_axioms;

/// Nesting depth after `s`: openers `<([{` count up, closers `>)]}` count down.
pub open spec fn nesting_depth(s: Seq<char>) -> int
    decreases s.len(),
{
    if s.len() == 0 {
        0
    } else {
        let c = s.last();
        nesting_depth(s.drop_last()) + if c == '<' || c == '(' || c == '[' || c == '{' {
            1int
        } else if c == '>' || c == ')' || c == ']' || c == '}' {
            -1int
        } else {
            0int
        }
    }
}

/// A comma at position `i` that stands outside every bracket.
pub open spec fn top_level_comma_at(s: Seq<char>, i: int) -> bool {
    0 <= i < s.len() && s[i] == ',' && nesting_depth(s.take(i)) == 0
}

/// The first top-level comma of `s`, if any.
#[verifier::opaque]
pub open spec fn first_top_level_comma(s: Seq<char>) -> Option<int> {
    if exists|i: int| top_level_comma_at(s, i) {
        Some(choose|i: int| top_level_comma_at(s, i) && forall|j: int| 0 <= j < i ==> !top_level_comma_at(s, j))
    } else {
        None
    }
}

/// The two trimmed sides of `s` around its first top-level comma.
pub open spec fn split_top_level_once_spec(s: Seq<char>) -> Option<(Seq<char>, Seq<char>)> {
    match first_top_level_comma(s) {
        Some(i) => Some((trim(s.take(i)), trim(s.skip(i + 1)))),
        None => None,
    }
}

fn split_top_level_once(input: &Vec<char>) -> (r: Option<(String, String)>)
    ensures
        match r {
            Some((a, b)) => split_top_level_once_spec(input@) == Some((a@, b@)),
            None => split_top_level_once_spec(input@) is None,
        },
{
    let mut depth: i128 = 0;
    let mut i: usize = 0;
    while i < input.len()
        invariant
            i <= input.len(),
            depth == nesting_depth(input@.take(i as int)),
            -(i as int) <= depth <= i as int,
            forall|j: int| 0 <= j < i ==> !top_level_comma_at(input@, j),
        decreases input.len() - i,
    {
        let c = input[i];
        assert(input@.take(i + 1).drop_last() =~= input@.take(i as int));
        if c == ',' && depth == 0 {
            reveal(first_top_level_comma);
            let ghost k = choose|k: int|
                top_level_comma_at(input@, k) && forall|j: int| 0 <= j < k ==> !top_level_comma_at(input@, j);
            assert(top_level_comma_at(input@, i as int));
            assert(k == i) by {
                if k > i {
                }
            }
            let lhs = slice_range(input, 0, i);
            let rhs = slice_range(input, i + 1, input.len());
            assert(lhs@ =~= input@.take(i as int));
            assert(rhs@ =~= input@.skip(i + 1));
            let a = trim_chars(&lhs);
            let b = trim_chars(&rhs);
            return Some((string_from_chars(&a), string_from_chars(&b)));
        }
        if c == '<' || c == '(' || c == '[' || c == '{' {
            depth = depth + 1;
        } else if c == '>' || c == ')' || c == ']' || c == '}' {
            depth = depth - 1;
        }
        i += 1;
    }
    reveal(first_top_level_comma);
    None
}

/// The part of `text` after the first `open`, up to the last `)` after it (empty when either is missing).
pub open spec fn call_body(text: Seq<char>, open: Seq<char>) -> Seq<char> {
    match first_occurrence(text, open) {
        Some(s) => {
            let rest = text.skip(s + open.len());
            match last_occurrence(rest, seq![')']) {
                Some(e) => rest.take(e),
                None => Seq::empty(),
            }
        },
        None => Seq::empty(),
    }
}

fn call_body_of(text: &Vec<char>, open: &Vec<char>) -> (r: Vec<char>)
    ensures
        r@ == call_body(text@, open@),
{
    let found = find_first(text, open);
    match found {
        Some(s) => {
            assert(occurs_at(text@, open@, s as int));
            assert(s + open@.len() <= text@.len());
            assert(s + open.len() <= text.len());
            let rest = slice_range(text, s + open.len(), text.len());
            assert(rest@ =~= text@.skip(s + open@.len()));
            let close = vec![')'];
            assert(close@ =~= seq![')']);
            match find_last(&rest, &close) {
                Some(e) => {
                    let b = slice_range(&rest, 0, e);
                    assert(b@ =~= rest@.take(e as int));
                    b
                },
                None => Vec::new(),
            }
        },
        None => Vec::new(),
    }
}

/// The path of a `TraitPredicate(..)` text: what follows the marker up to the next `)`.
pub open spec fn trait_path_of(text: Seq<char>) -> Seq<char> {
    let marker = "TraitPredicate("@;
    match first_occurrence(text, marker) {
        Some(s) => {
            let inner = text.skip(s + marker.len());
            match first_occurrence(inner, seq![')']) {
                Some(e) => inner.take(e),
                None => inner,
            }
        },
        None => text,
    }
}

/// The predicate that a solver debug text describes.
pub open spec fn lowered_predicate(raw: Seq<char>) -> PredicateView {
    let text = trim(raw);
    let alias = split_top_level_once_spec(call_body(text, "AliasRelate("@));
    let normalizes = split_top_level_once_spec(call_body(text, "NormalizesTo("@));
    if seq_contains(text, "AliasRelate("@) && alias is Some {
        PredicateView::AliasRelate { lhs: alias.unwrap().0, rhs: alias.unwrap().1 }
    } else if seq_contains(text, "NormalizesTo("@) && normalizes is Some {
        PredicateView::NormalizesTo { alias: normalizes.unwrap().0, target: normalizes.unwrap().1 }
    } else if seq_contains(text, "TraitPredicate("@) {
        PredicateView::TraitPredicate {
            trait_path: trait_path_of(text),
            self_ty: "<unknown>"@,
            args: Seq::empty(),
        }
    } else if text.len() == 0 {
        PredicateView::Unknown
    } else {
        PredicateView::DebugText(text)
    }
}

/// The two sides of a `marker(lhs, rhs)` call inside `text`.
fn call_sides(text: &Vec<char>, marker: &str) -> (r: Option<(String, String)>)
    ensures
        match r {
            Some((a, b)) => seq_contains(text@, marker@) && split_top_level_once_spec(call_body(text@, marker@))
                == Some((a@, b@)),
            None => !seq_contains(text@, marker@) || split_top_level_once_spec(call_body(text@, marker@)) is None,
        },
{
    let m = str_chars(marker);
    if contains_chars(text, &m) {
        let inner = call_body_of(text, &m);
        split_top_level_once(&inner)
    } else {
        None
    }
}

/// The path inside a `TraitPredicate(..)` text.
fn trait_path_text(text: &Vec<char>) -> (r: String)
    ensures
        r@ == trait_path_of(text@),
{
    let marker = str_chars("TraitPredicate(");
    match find_first(text, &marker) {
        Some(start) => {
            assert(occurs_at(text@, marker@, start as int));
            assert(start + marker@.len() <= text@.len());
            assert(start + marker.len() <= text.len());
            let inner = slice_range(text, start + marker.len(), text.len());
            assert(inner@ =~= text@.skip(start + marker@.len()));
            let close = vec![')'];
            assert(close@ =~= seq![')']);
            match find_first(&inner, &close) {
                Some(e) => string_from_range(&inner, 0, e),
                None => string_from_chars(&inner),
            }
        },
        None => string_from_chars(text),
    }
}

pub fn lower_predicate_repr(raw: &str) -> (p: PredicateRepr)
    ensures
        p@ == lowered_predicate(raw@),
{
    let text = trim_chars(&str_chars(raw));
    if let Some((lhs, rhs)) = call_sides(&text, "AliasRelate(") {
        return PredicateRepr::AliasRelate { lhs, rhs };
    }
    if let Some((alias, target)) = call_sides(&text, "NormalizesTo(") {
        return PredicateRepr::NormalizesTo { alias, target };
    }
    if contains_chars(&text, &str_chars("TraitPredicate(")) {
        let trait_path = trait_path_text(&text);
        let args: Vec<String> = Vec::new();
        assert(texts(args@) =~= Seq::<Seq<char>>::empty());
        return PredicateRepr::TraitPredicate { trait_path, self_ty: copy_str("<unknown>"), args };
    }
    if text.len() == 0 {
        PredicateRepr::Unknown
    } else {
        PredicateRepr::DebugText(string_from_chars(&text))
    }
}

/// The candidate kind that a solver debug text names, by case-insensitive keywords.
pub open spec fn lowered_candidate_kind(raw: Seq<char>) -> CandidateKindView {
    let lower = lower_seq(raw);
    if seq_contains(lower, "paramenv"@) {
        CandidateKindView::ParamEnv
    } else if seq_contains(lower, "impl"@) {
        CandidateKindView::Impl
    } else if seq_contains(lower, "builtin"@) {
        CandidateKindView::Builtin
    } else if seq_contains(lower, "aliasrelate"@) {
        CandidateKindView::AliasRelate
    } else if seq_contains(lower, "normalize"@) {
        CandidateKindView::Normalize
    } else {
        CandidateKindView::Unknown(raw)
    }
}

pub fn lower_candidate_kind(raw: &str) -> (k: CandidateKind)
    ensures
        k@ == lowered_candidate_kind(raw@),
{
    let lower = to_lower(raw);
    let l = lower.as_str();
    if str_contains(l, "paramenv") {
        CandidateKind::ParamEnv
    } else if str_contains(l, "impl") {
        CandidateKind::Impl
    } else if str_contains(l, "builtin") {
        CandidateKind::Builtin
    } else if str_contains(l, "aliasrelate") {
        CandidateKind::AliasRelate
    } else if str_contains(l, "normalize") {
        CandidateKind::Normalize
    } else {
        CandidateKind::Unknown(copy_str(raw))
    }
}

/// The goal result that a solver debug text names, by case-insensitive keywords.
pub open spec fn lowered_goal_result(raw: Seq<char>) -> GoalResult {
    let lower = lower_seq(raw);
    if seq_contains(lower, "no_solution"@) || seq_contains(lower, "nosolution"@) {
        GoalResult::NoSolution
    } else if seq_contains(lower, "ambiguous"@) {
        GoalResult::Ambiguous
    } else if seq_contains(lower, "unsupported"@) {
        GoalResult::Unsupported
    } else if seq_contains(lower, "ok"@) || seq_contains(lower, "yes"@) {
        GoalResult::Success
    } else {
        GoalResult::Error
    }
}

pub fn lower_goal_result(raw: &str) -> (r: GoalResult)
    ensures
        r == lowered_goal_result(raw@),
{
    let lower = to_lower(raw);
    let l = lower.as_str();
    if str_contains(l, "no_solution") || str_contains(l, "nosolution") {
        GoalResult::NoSolution
    } else if str_contains(l, "ambiguous") {
        GoalResult::Ambiguous
    } else if str_contains(l, "unsupported") {
        GoalResult::Unsupported
    } else if str_contains(l, "ok") || str_contains(l, "yes") {
        GoalResult::Success
    } else {
        GoalResult::Error
    }
}

/// `tag` when `cond` holds, nothing otherwise.
pub open spec fn tag_if(cond: bool, tag: SemanticTag) -> Seq<SemanticTag> {
    if cond {
        seq![tag]
    } else {
        Seq::empty()
    }
}

/// The semantic tags that the typelude markers in a predicate text call for.
pub open spec fn predicate_tags(text: Seq<char>) -> Seq<SemanticTag> {
    let found = tag_if(seq_contains(text, "EIf"@), SemanticTag::BranchLike) + tag_if(
        seq_contains(text, "EWhile"@),
        SemanticTag::LoopLike,
    ) + tag_if(seq_contains(text, "EGet"@), SemanticTag::LookupLike) + tag_if(
        seq_contains(text, "EMap"@),
        SemanticTag::MapLike,
    ) + tag_if(seq_contains(text, "EApp"@), SemanticTag::ApplyLike) + tag_if(
        seq_contains(text, "Helper"@),
        SemanticTag::HelperDispatchLike,
    ) + tag_if(seq_contains(text, "Op"@), SemanticTag::VmOpLike);
    if found.len() == 0 {
        seq![SemanticTag::EvalLike]
    } else {
        found
    }
}

proof fn lemma_tag_if_contains(c: bool, t: SemanticTag, e: SemanticTag)
    ensures
        tag_if(c, t).contains(e) <==> c && e == t,
{
    if c {
        assert(seq![t][0] == t);
    }
}

/// The tags of a predicate text follow its typelude markers: each marker's tag is there exactly
/// when the text holds the marker (`EIf` branch, `EWhile` loop, `EGet` lookup, `EMap` map,
/// `EApp` apply, `Helper` helper dispatch, `Op` VM op), and a text with none of them is tagged
/// as plain evaluation alone.
pub proof fn predicate_tags_follow_markers(text: Seq<char>)
    ensures
        predicate_tags(text).contains(SemanticTag::BranchLike) <==> seq_contains(text, "EIf"@),
        predicate_tags(text).contains(SemanticTag::LoopLike) <==> seq_contains(text, "EWhile"@),
        predicate_tags(text).contains(SemanticTag::LookupLike) <==> seq_contains(text, "EGet"@),
        predicate_tags(text).contains(SemanticTag::MapLike) <==> seq_contains(text, "EMap"@),
        predicate_tags(text).contains(SemanticTag::ApplyLike) <==> seq_contains(text, "EApp"@),
        predicate_tags(text).contains(SemanticTag::HelperDispatchLike) <==> seq_contains(text, "Helper"@),
        predicate_tags(text).contains(SemanticTag::VmOpLike) <==> seq_contains(text, "Op"@),
        !(seq_contains(text, "EIf"@) || seq_contains(text, "EWhile"@) || seq_contains(text, "EGet"@) || seq_contains(text, "EMap"@) || seq_contains(text, "EApp"@) || seq_contains(text, "Helper"@) || seq_contains(text, "Op"@)) ==> predicate_tags(text) == seq![SemanticTag::EvalLike],
        (seq_contains(text, "EIf"@) || seq_contains(text, "EWhile"@) || seq_contains(text, "EGet"@) || seq_contains(text, "EMap"@) || seq_contains(text, "EApp"@) || seq_contains(text, "Helper"@) || seq_contains(text, "Op"@)) ==> !predicate_tags(text).contains(SemanticTag::EvalLike),
{
    let parts = seq![tag_if(seq_contains(text, "EIf"@), SemanticTag::BranchLike), tag_if(seq_contains(text, "EWhile"@), SemanticTag::LoopLike), tag_if(seq_contains(text, "EGet"@), SemanticTag::LookupLike), tag_if(seq_contains(text, "EMap"@), SemanticTag::MapLike), tag_if(seq_contains(text, "EApp"@), SemanticTag::ApplyLike), tag_if(seq_contains(text, "Helper"@), SemanticTag::HelperDispatchLike), tag_if(seq_contains(text, "Op"@), SemanticTag::VmOpLike)];
    let found = tag_if(seq_contains(text, "EIf"@), SemanticTag::BranchLike) + tag_if(seq_contains(text, "EWhile"@), SemanticTag::LoopLike) + tag_if(seq_contains(text, "EGet"@), SemanticTag::LookupLike) + tag_if(seq_contains(text, "EMap"@), SemanticTag::MapLike) + tag_if(seq_contains(text, "EApp"@), SemanticTag::ApplyLike) + tag_if(seq_contains(text, "Helper"@), SemanticTag::HelperDispatchLike) + tag_if(seq_contains(text, "Op"@), SemanticTag::VmOpLike);
    crate::text::lemma_concat_contains(tag_if(seq_contains(text, "EIf"@), SemanticTag::BranchLike), tag_if(seq_contains(text, "EWhile"@), SemanticTag::LoopLike), SemanticTag::BranchLike);
    crate::text::lemma_concat_contains(tag_if(seq_contains(text, "EIf"@), SemanticTag::BranchLike) + tag_if(seq_contains(text, "EWhile"@), SemanticTag::LoopLike), tag_if(seq_contains(text, "EGet"@), SemanticTag::LookupLike), SemanticTag::BranchLike);
    crate::text::lemma_concat_contains(tag_if(seq_contains(text, "EIf"@), SemanticTag::BranchLike) + tag_if(seq_contains(text, "EWhile"@), SemanticTag::LoopLike) + tag_if(seq_contains(text, "EGet"@), SemanticTag::LookupLike), tag_if(seq_contains(text, "EMap"@), SemanticTag::MapLike), SemanticTag::BranchLike);
    crate::text::lemma_concat_contains(tag_if(seq_contains(text, "EIf"@), SemanticTag::BranchLike) + tag_if(seq_contains(text, "EWhile"@), SemanticTag::LoopLike) + tag_if(seq_contains(text, "EGet"@), SemanticTag::LookupLike) + tag_if(seq_contains(text, "EMap"@), SemanticTag::MapLike), tag_if(seq_contains(text, "EApp"@), SemanticTag::ApplyLike), SemanticTag::BranchLike);
    crate::text::lemma_concat_contains(tag_if(seq_contains(text, "EIf"@), SemanticTag::BranchLike) + tag_if(seq_contains(text, "EWhile"@), SemanticTag::LoopLike) + tag_if(seq_contains(text, "EGet"@), SemanticTag::LookupLike) + tag_if(seq_contains(text, "EMap"@), SemanticTag::MapLike) + tag_if(seq_contains(text, "EApp"@), SemanticTag::ApplyLike), tag_if(seq_contains(text, "Helper"@), SemanticTag::HelperDispatchLike), SemanticTag::BranchLike);
    crate::text::lemma_concat_contains(tag_if(seq_contains(text, "EIf"@), SemanticTag::BranchLike) + tag_if(seq_contains(text, "EWhile"@), SemanticTag::LoopLike) + tag_if(seq_contains(text, "EGet"@), SemanticTag::LookupLike) + tag_if(seq_contains(text, "EMap"@), SemanticTag::MapLike) + tag_if(seq_contains(text, "EApp"@), SemanticTag::ApplyLike) + tag_if(seq_contains(text, "Helper"@), SemanticTag::HelperDispatchLike), tag_if(seq_contains(text, "Op"@), SemanticTag::VmOpLike), SemanticTag::BranchLike);
    lemma_tag_if_contains(seq_contains(text, "EIf"@), SemanticTag::BranchLike, SemanticTag::BranchLike);
    lemma_tag_if_contains(seq_contains(text, "EWhile"@), SemanticTag::LoopLike, SemanticTag::BranchLike);
    lemma_tag_if_contains(seq_contains(text, "EGet"@), SemanticTag::LookupLike, SemanticTag::BranchLike);
    lemma_tag_if_contains(seq_contains(text, "EMap"@), SemanticTag::MapLike, SemanticTag::BranchLike);
    lemma_tag_if_contains(seq_contains(text, "EApp"@), SemanticTag::ApplyLike, SemanticTag::BranchLike);
    lemma_tag_if_contains(seq_contains(text, "Helper"@), SemanticTag::HelperDispatchLike, SemanticTag::BranchLike);
    lemma_tag_if_contains(seq_contains(text, "Op"@), SemanticTag::VmOpLike, SemanticTag::BranchLike);
    crate::text::lemma_concat_contains(tag_if(seq_contains(text, "EIf"@), SemanticTag::BranchLike), tag_if(seq_contains(text, "EWhile"@), SemanticTag::LoopLike), SemanticTag::LoopLike);
    crate::text::lemma_concat_contains(tag_if(seq_contains(text, "EIf"@), SemanticTag::BranchLike) + tag_if(seq_contains(text, "EWhile"@), SemanticTag::LoopLike), tag_if(seq_contains(text, "EGet"@), SemanticTag::LookupLike), SemanticTag::LoopLike);
    crate::text::lemma_concat_contains(tag_if(seq_contains(text, "EIf"@), SemanticTag::BranchLike) + tag_if(seq_contains(text, "EWhile"@), SemanticTag::LoopLike) + tag_if(seq_contains(text, "EGet"@), SemanticTag::LookupLike), tag_if(seq_contains(text, "EMap"@), SemanticTag::MapLike), SemanticTag::LoopLike);
    crate::text::lemma_concat_contains(tag_if(seq_contains(text, "EIf"@), SemanticTag::BranchLike) + tag_if(seq_contains(text, "EWhile"@), SemanticTag::LoopLike) + tag_if(seq_contains(text, "EGet"@), SemanticTag::LookupLike) + tag_if(seq_contains(text, "EMap"@), SemanticTag::MapLike), tag_if(seq_contains(text, "EApp"@), SemanticTag::ApplyLike), SemanticTag::LoopLike);
    crate::text::lemma_concat_contains(tag_if(seq_contains(text, "EIf"@), SemanticTag::BranchLike) + tag_if(seq_contains(text, "EWhile"@), SemanticTag::LoopLike) + tag_if(seq_contains(text, "EGet"@), SemanticTag::LookupLike) + tag_if(seq_contains(text, "EMap"@), SemanticTag::MapLike) + tag_if(seq_contains(text, "EApp"@), SemanticTag::ApplyLike), tag_if(seq_contains(text, "Helper"@), SemanticTag::HelperDispatchLike), SemanticTag::LoopLike);
    crate::text::lemma_concat_contains(tag_if(seq_contains(text, "EIf"@), SemanticTag::BranchLike) + tag_if(seq_contains(text, "EWhile"@), SemanticTag::LoopLike) + tag_if(seq_contains(text, "EGet"@), SemanticTag::LookupLike) + tag_if(seq_contains(text, "EMap"@), SemanticTag::MapLike) + tag_if(seq_contains(text, "EApp"@), SemanticTag::ApplyLike) + tag_if(seq_contains(text, "Helper"@), SemanticTag::HelperDispatchLike), tag_if(seq_contains(text, "Op"@), SemanticTag::VmOpLike), SemanticTag::LoopLike);
    lemma_tag_if_contains(seq_contains(text, "EIf"@), SemanticTag::BranchLike, SemanticTag::LoopLike);
    lemma_tag_if_contains(seq_contains(text, "EWhile"@), SemanticTag::LoopLike, SemanticTag::LoopLike);
    lemma_tag_if_contains(seq_contains(text, "EGet"@), SemanticTag::LookupLike, SemanticTag::LoopLike);
    lemma_tag_if_contains(seq_contains(text, "EMap"@), SemanticTag::MapLike, SemanticTag::LoopLike);
    lemma_tag_if_contains(seq_contains(text, "EApp"@), SemanticTag::ApplyLike, SemanticTag::LoopLike);
    lemma_tag_if_contains(seq_contains(text, "Helper"@), SemanticTag::HelperDispatchLike, SemanticTag::LoopLike);
    lemma_tag_if_contains(seq_contains(text, "Op"@), SemanticTag::VmOpLike, SemanticTag::LoopLike);
    crate::text::lemma_concat_contains(tag_if(seq_contains(text, "EIf"@), SemanticTag::BranchLike), tag_if(seq_contains(text, "EWhile"@), SemanticTag::LoopLike), SemanticTag::LookupLike);
    crate::text::lemma_concat_contains(tag_if(seq_contains(text, "EIf"@), SemanticTag::BranchLike) + tag_if(seq_contains(text, "EWhile"@), SemanticTag::LoopLike), tag_if(seq_contains(text, "EGet"@), SemanticTag::LookupLike), SemanticTag::LookupLike);
    crate::text::lemma_concat_contains(tag_if(seq_contains(text, "EIf"@), SemanticTag::BranchLike) + tag_if(seq_contains(text, "EWhile"@), SemanticTag::LoopLike) + tag_if(seq_contains(text, "EGet"@), SemanticTag::LookupLike), tag_if(seq_contains(text, "EMap"@), SemanticTag::MapLike), SemanticTag::LookupLike);
    crate::text::lemma_concat_contains(tag_if(seq_contains(text, "EIf"@), SemanticTag::BranchLike) + tag_if(seq_contains(text, "EWhile"@), SemanticTag::LoopLike) + tag_if(seq_contains(text, "EGet"@), SemanticTag::LookupLike) + tag_if(seq_contains(text, "EMap"@), SemanticTag::MapLike), tag_if(seq_contains(text, "EApp"@), SemanticTag::ApplyLike), SemanticTag::LookupLike);
    crate::text::lemma_concat_contains(tag_if(seq_contains(text, "EIf"@), SemanticTag::BranchLike) + tag_if(seq_contains(text, "EWhile"@), SemanticTag::LoopLike) + tag_if(seq_contains(text, "EGet"@), SemanticTag::LookupLike) + tag_if(seq_contains(text, "EMap"@), SemanticTag::MapLike) + tag_if(seq_contains(text, "EApp"@), SemanticTag::ApplyLike), tag_if(seq_contains(text, "Helper"@), SemanticTag::HelperDispatchLike), SemanticTag::LookupLike);
    crate::text::lemma_concat_contains(tag_if(seq_contains(text, "EIf"@), SemanticTag::BranchLike) + tag_if(seq_contains(text, "EWhile"@), SemanticTag::LoopLike) + tag_if(seq_contains(text, "EGet"@), SemanticTag::LookupLike) + tag_if(seq_contains(text, "EMap"@), SemanticTag::MapLike) + tag_if(seq_contains(text, "EApp"@), SemanticTag::ApplyLike) + tag_if(seq_contains(text, "Helper"@), SemanticTag::HelperDispatchLike), tag_if(seq_contains(text, "Op"@), SemanticTag::VmOpLike), SemanticTag::LookupLike);
    lemma_tag_if_contains(seq_contains(text, "EIf"@), SemanticTag::BranchLike, SemanticTag::LookupLike);
    lemma_tag_if_contains(seq_contains(text, "EWhile"@), SemanticTag::LoopLike, SemanticTag::LookupLike);
    lemma_tag_if_contains(seq_contains(text, "EGet"@), SemanticTag::LookupLike, SemanticTag::LookupLike);
    lemma_tag_if_contains(seq_contains(text, "EMap"@), SemanticTag::MapLike, SemanticTag::LookupLike);
    lemma_tag_if_contains(seq_contains(text, "EApp"@), SemanticTag::ApplyLike, SemanticTag::LookupLike);
    lemma_tag_if_contains(seq_contains(text, "Helper"@), SemanticTag::HelperDispatchLike, SemanticTag::LookupLike);
    lemma_tag_if_contains(seq_contains(text, "Op"@), SemanticTag::VmOpLike, SemanticTag::LookupLike);
    crate::text::lemma_concat_contains(tag_if(seq_contains(text, "EIf"@), SemanticTag::BranchLike), tag_if(seq_contains(text, "EWhile"@), SemanticTag::LoopLike), SemanticTag::MapLike);
    crate::text::lemma_concat_contains(tag_if(seq_contains(text, "EIf"@), SemanticTag::BranchLike) + tag_if(seq_contains(text, "EWhile"@), SemanticTag::LoopLike), tag_if(seq_contains(text, "EGet"@), SemanticTag::LookupLike), SemanticTag::MapLike);
    crate::text::lemma_concat_contains(tag_if(seq_contains(text, "EIf"@), SemanticTag::BranchLike) + tag_if(seq_contains(text, "EWhile"@), SemanticTag::LoopLike) + tag_if(seq_contains(text, "EGet"@), SemanticTag::LookupLike), tag_if(seq_contains(text, "EMap"@), SemanticTag::MapLike), SemanticTag::MapLike);
    crate::text::lemma_concat_contains(tag_if(seq_contains(text, "EIf"@), SemanticTag::BranchLike) + tag_if(seq_contains(text, "EWhile"@), SemanticTag::LoopLike) + tag_if(seq_contains(text, "EGet"@), SemanticTag::LookupLike) + tag_if(seq_contains(text, "EMap"@), SemanticTag::MapLike), tag_if(seq_contains(text, "EApp"@), SemanticTag::ApplyLike), SemanticTag::MapLike);
    crate::text::lemma_concat_contains(tag_if(seq_contains(text, "EIf"@), SemanticTag::BranchLike) + tag_if(seq_contains(text, "EWhile"@), SemanticTag::LoopLike) + tag_if(seq_contains(text, "EGet"@), SemanticTag::LookupLike) + tag_if(seq_contains(text, "EMap"@), SemanticTag::MapLike) + tag_if(seq_contains(text, "EApp"@), SemanticTag::ApplyLike), tag_if(seq_contains(text, "Helper"@), SemanticTag::HelperDispatchLike), SemanticTag::MapLike);
    crate::text::lemma_concat_contains(tag_if(seq_contains(text, "EIf"@), SemanticTag::BranchLike) + tag_if(seq_contains(text, "EWhile"@), SemanticTag::LoopLike) + tag_if(seq_contains(text, "EGet"@), SemanticTag::LookupLike) + tag_if(seq_contains(text, "EMap"@), SemanticTag::MapLike) + tag_if(seq_contains(text, "EApp"@), SemanticTag::ApplyLike) + tag_if(seq_contains(text, "Helper"@), SemanticTag::HelperDispatchLike), tag_if(seq_contains(text, "Op"@), SemanticTag::VmOpLike), SemanticTag::MapLike);
    lemma_tag_if_contains(seq_contains(text, "EIf"@), SemanticTag::BranchLike, SemanticTag::MapLike);
    lemma_tag_if_contains(seq_contains(text, "EWhile"@), SemanticTag::LoopLike, SemanticTag::MapLike);
    lemma_tag_if_contains(seq_contains(text, "EGet"@), SemanticTag::LookupLike, SemanticTag::MapLike);
    lemma_tag_if_contains(seq_contains(text, "EMap"@), SemanticTag::MapLike, SemanticTag::MapLike);
    lemma_tag_if_contains(seq_contains(text, "EApp"@), SemanticTag::ApplyLike, SemanticTag::MapLike);
    lemma_tag_if_contains(seq_contains(text, "Helper"@), SemanticTag::HelperDispatchLike, SemanticTag::MapLike);
    lemma_tag_if_contains(seq_contains(text, "Op"@), SemanticTag::VmOpLike, SemanticTag::MapLike);
    crate::text::lemma_concat_contains(tag_if(seq_contains(text, "EIf"@), SemanticTag::BranchLike), tag_if(seq_contains(text, "EWhile"@), SemanticTag::LoopLike), SemanticTag::ApplyLike);
    crate::text::lemma_concat_contains(tag_if(seq_contains(text, "EIf"@), SemanticTag::BranchLike) + tag_if(seq_contains(text, "EWhile"@), SemanticTag::LoopLike), tag_if(seq_contains(text, "EGet"@), SemanticTag::LookupLike), SemanticTag::ApplyLike);
    crate::text::lemma_concat_contains(tag_if(seq_contains(text, "EIf"@), SemanticTag::BranchLike) + tag_if(seq_contains(text, "EWhile"@), SemanticTag::LoopLike) + tag_if(seq_contains(text, "EGet"@), SemanticTag::LookupLike), tag_if(seq_contains(text, "EMap"@), SemanticTag::MapLike), SemanticTag::ApplyLike);
    crate::text::lemma_concat_contains(tag_if(seq_contains(text, "EIf"@), SemanticTag::BranchLike) + tag_if(seq_contains(text, "EWhile"@), SemanticTag::LoopLike) + tag_if(seq_contains(text, "EGet"@), SemanticTag::LookupLike) + tag_if(seq_contains(text, "EMap"@), SemanticTag::MapLike), tag_if(seq_contains(text, "EApp"@), SemanticTag::ApplyLike), SemanticTag::ApplyLike);
    crate::text::lemma_concat_contains(tag_if(seq_contains(text, "EIf"@), SemanticTag::BranchLike) + tag_if(seq_contains(text, "EWhile"@), SemanticTag::LoopLike) + tag_if(seq_contains(text, "EGet"@), SemanticTag::LookupLike) + tag_if(seq_contains(text, "EMap"@), SemanticTag::MapLike) + tag_if(seq_contains(text, "EApp"@), SemanticTag::ApplyLike), tag_if(seq_contains(text, "Helper"@), SemanticTag::HelperDispatchLike), SemanticTag::ApplyLike);
    crate::text::lemma_concat_contains(tag_if(seq_contains(text, "EIf"@), SemanticTag::BranchLike) + tag_if(seq_contains(text, "EWhile"@), SemanticTag::LoopLike) + tag_if(seq_contains(text, "EGet"@), SemanticTag::LookupLike) + tag_if(seq_contains(text, "EMap"@), SemanticTag::MapLike) + tag_if(seq_contains(text, "EApp"@), SemanticTag::ApplyLike) + tag_if(seq_contains(text, "Helper"@), SemanticTag::HelperDispatchLike), tag_if(seq_contains(text, "Op"@), SemanticTag::VmOpLike), SemanticTag::ApplyLike);
    lemma_tag_if_contains(seq_contains(text, "EIf"@), SemanticTag::BranchLike, SemanticTag::ApplyLike);
    lemma_tag_if_contains(seq_contains(text, "EWhile"@), SemanticTag::LoopLike, SemanticTag::ApplyLike);
    lemma_tag_if_contains(seq_contains(text, "EGet"@), SemanticTag::LookupLike, SemanticTag::ApplyLike);
    lemma_tag_if_contains(seq_contains(text, "EMap"@), SemanticTag::MapLike, SemanticTag::ApplyLike);
    lemma_tag_if_contains(seq_contains(text, "EApp"@), SemanticTag::ApplyLike, SemanticTag::ApplyLike);
    lemma_tag_if_contains(seq_contains(text, "Helper"@), SemanticTag::HelperDispatchLike, SemanticTag::ApplyLike);
    lemma_tag_if_contains(seq_contains(text, "Op"@), SemanticTag::VmOpLike, SemanticTag::ApplyLike);
    crate::text::lemma_concat_contains(tag_if(seq_contains(text, "EIf"@), SemanticTag::BranchLike), tag_if(seq_contains(text, "EWhile"@), SemanticTag::LoopLike), SemanticTag::HelperDispatchLike);
    crate::text::lemma_concat_contains(tag_if(seq_contains(text, "EIf"@), SemanticTag::BranchLike) + tag_if(seq_contains(text, "EWhile"@), SemanticTag::LoopLike), tag_if(seq_contains(text, "EGet"@), SemanticTag::LookupLike), SemanticTag::HelperDispatchLike);
    crate::text::lemma_concat_contains(tag_if(seq_contains(text, "EIf"@), SemanticTag::BranchLike) + tag_if(seq_contains(text, "EWhile"@), SemanticTag::LoopLike) + tag_if(seq_contains(text, "EGet"@), SemanticTag::LookupLike), tag_if(seq_contains(text, "EMap"@), SemanticTag::MapLike), SemanticTag::HelperDispatchLike);
    crate::text::lemma_concat_contains(tag_if(seq_contains(text, "EIf"@), SemanticTag::BranchLike) + tag_if(seq_contains(text, "EWhile"@), SemanticTag::LoopLike) + tag_if(seq_contains(text, "EGet"@), SemanticTag::LookupLike) + tag_if(seq_contains(text, "EMap"@), SemanticTag::MapLike), tag_if(seq_contains(text, "EApp"@), SemanticTag::ApplyLike), SemanticTag::HelperDispatchLike);
    crate::text::lemma_concat_contains(tag_if(seq_contains(text, "EIf"@), SemanticTag::BranchLike) + tag_if(seq_contains(text, "EWhile"@), SemanticTag::LoopLike) + tag_if(seq_contains(text, "EGet"@), SemanticTag::LookupLike) + tag_if(seq_contains(text, "EMap"@), SemanticTag::MapLike) + tag_if(seq_contains(text, "EApp"@), SemanticTag::ApplyLike), tag_if(seq_contains(text, "Helper"@), SemanticTag::HelperDispatchLike), SemanticTag::HelperDispatchLike);
    crate::text::lemma_concat_contains(tag_if(seq_contains(text, "EIf"@), SemanticTag::BranchLike) + tag_if(seq_contains(text, "EWhile"@), SemanticTag::LoopLike) + tag_if(seq_contains(text, "EGet"@), SemanticTag::LookupLike) + tag_if(seq_contains(text, "EMap"@), SemanticTag::MapLike) + tag_if(seq_contains(text, "EApp"@), SemanticTag::ApplyLike) + tag_if(seq_contains(text, "Helper"@), SemanticTag::HelperDispatchLike), tag_if(seq_contains(text, "Op"@), SemanticTag::VmOpLike), SemanticTag::HelperDispatchLike);
    lemma_tag_if_contains(seq_contains(text, "EIf"@), SemanticTag::BranchLike, SemanticTag::HelperDispatchLike);
    lemma_tag_if_contains(seq_contains(text, "EWhile"@), SemanticTag::LoopLike, SemanticTag::HelperDispatchLike);
    lemma_tag_if_contains(seq_contains(text, "EGet"@), SemanticTag::LookupLike, SemanticTag::HelperDispatchLike);
    lemma_tag_if_contains(seq_contains(text, "EMap"@), SemanticTag::MapLike, SemanticTag::HelperDispatchLike);
    lemma_tag_if_contains(seq_contains(text, "EApp"@), SemanticTag::ApplyLike, SemanticTag::HelperDispatchLike);
    lemma_tag_if_contains(seq_contains(text, "Helper"@), SemanticTag::HelperDispatchLike, SemanticTag::HelperDispatchLike);
    lemma_tag_if_contains(seq_contains(text, "Op"@), SemanticTag::VmOpLike, SemanticTag::HelperDispatchLike);
    crate::text::lemma_concat_contains(tag_if(seq_contains(text, "EIf"@), SemanticTag::BranchLike), tag_if(seq_contains(text, "EWhile"@), SemanticTag::LoopLike), SemanticTag::VmOpLike);
    crate::text::lemma_concat_contains(tag_if(seq_contains(text, "EIf"@), SemanticTag::BranchLike) + tag_if(seq_contains(text, "EWhile"@), SemanticTag::LoopLike), tag_if(seq_contains(text, "EGet"@), SemanticTag::LookupLike), SemanticTag::VmOpLike);
    crate::text::lemma_concat_contains(tag_if(seq_contains(text, "EIf"@), SemanticTag::BranchLike) + tag_if(seq_contains(text, "EWhile"@), SemanticTag::LoopLike) + tag_if(seq_contains(text, "EGet"@), SemanticTag::LookupLike), tag_if(seq_contains(text, "EMap"@), SemanticTag::MapLike), SemanticTag::VmOpLike);
    crate::text::lemma_concat_contains(tag_if(seq_contains(text, "EIf"@), SemanticTag::BranchLike) + tag_if(seq_contains(text, "EWhile"@), SemanticTag::LoopLike) + tag_if(seq_contains(text, "EGet"@), SemanticTag::LookupLike) + tag_if(seq_contains(text, "EMap"@), SemanticTag::MapLike), tag_if(seq_contains(text, "EApp"@), SemanticTag::ApplyLike), SemanticTag::VmOpLike);
    crate::text::lemma_concat_contains(tag_if(seq_contains(text, "EIf"@), SemanticTag::BranchLike) + tag_if(seq_contains(text, "EWhile"@), SemanticTag::LoopLike) + tag_if(seq_contains(text, "EGet"@), SemanticTag::LookupLike) + tag_if(seq_contains(text, "EMap"@), SemanticTag::MapLike) + tag_if(seq_contains(text, "EApp"@), SemanticTag::ApplyLike), tag_if(seq_contains(text, "Helper"@), SemanticTag::HelperDispatchLike), SemanticTag::VmOpLike);
    crate::text::lemma_concat_contains(tag_if(seq_contains(text, "EIf"@), SemanticTag::BranchLike) + tag_if(seq_contains(text, "EWhile"@), SemanticTag::LoopLike) + tag_if(seq_contains(text, "EGet"@), SemanticTag::LookupLike) + tag_if(seq_contains(text, "EMap"@), SemanticTag::MapLike) + tag_if(seq_contains(text, "EApp"@), SemanticTag::ApplyLike) + tag_if(seq_contains(text, "Helper"@), SemanticTag::HelperDispatchLike), tag_if(seq_contains(text, "Op"@), SemanticTag::VmOpLike), SemanticTag::VmOpLike);
    lemma_tag_if_contains(seq_contains(text, "EIf"@), SemanticTag::BranchLike, SemanticTag::VmOpLike);
    lemma_tag_if_contains(seq_contains(text, "EWhile"@), SemanticTag::LoopLike, SemanticTag::VmOpLike);
    lemma_tag_if_contains(seq_contains(text, "EGet"@), SemanticTag::LookupLike, SemanticTag::VmOpLike);
    lemma_tag_if_contains(seq_contains(text, "EMap"@), SemanticTag::MapLike, SemanticTag::VmOpLike);
    lemma_tag_if_contains(seq_contains(text, "EApp"@), SemanticTag::ApplyLike, SemanticTag::VmOpLike);
    lemma_tag_if_contains(seq_contains(text, "Helper"@), SemanticTag::HelperDispatchLike, SemanticTag::VmOpLike);
    lemma_tag_if_contains(seq_contains(text, "Op"@), SemanticTag::VmOpLike, SemanticTag::VmOpLike);
    crate::text::lemma_concat_contains(tag_if(seq_contains(text, "EIf"@), SemanticTag::BranchLike), tag_if(seq_contains(text, "EWhile"@), SemanticTag::LoopLike), SemanticTag::EvalLike);
    crate::text::lemma_concat_contains(tag_if(seq_contains(text, "EIf"@), SemanticTag::BranchLike) + tag_if(seq_contains(text, "EWhile"@), SemanticTag::LoopLike), tag_if(seq_contains(text, "EGet"@), SemanticTag::LookupLike), SemanticTag::EvalLike);
    crate::text::lemma_concat_contains(tag_if(seq_contains(text, "EIf"@), SemanticTag::BranchLike) + tag_if(seq_contains(text, "EWhile"@), SemanticTag::LoopLike) + tag_if(seq_contains(text, "EGet"@), SemanticTag::LookupLike), tag_if(seq_contains(text, "EMap"@), SemanticTag::MapLike), SemanticTag::EvalLike);
    crate::text::lemma_concat_contains(tag_if(seq_contains(text, "EIf"@), SemanticTag::BranchLike) + tag_if(seq_contains(text, "EWhile"@), SemanticTag::LoopLike) + tag_if(seq_contains(text, "EGet"@), SemanticTag::LookupLike) + tag_if(seq_contains(text, "EMap"@), SemanticTag::MapLike), tag_if(seq_contains(text, "EApp"@), SemanticTag::ApplyLike), SemanticTag::EvalLike);
    crate::text::lemma_concat_contains(tag_if(seq_contains(text, "EIf"@), SemanticTag::BranchLike) + tag_if(seq_contains(text, "EWhile"@), SemanticTag::LoopLike) + tag_if(seq_contains(text, "EGet"@), SemanticTag::LookupLike) + tag_if(seq_contains(text, "EMap"@), SemanticTag::MapLike) + tag_if(seq_contains(text, "EApp"@), SemanticTag::ApplyLike), tag_if(seq_contains(text, "Helper"@), SemanticTag::HelperDispatchLike), SemanticTag::EvalLike);
    crate::text::lemma_concat_contains(tag_if(seq_contains(text, "EIf"@), SemanticTag::BranchLike) + tag_if(seq_contains(text, "EWhile"@), SemanticTag::LoopLike) + tag_if(seq_contains(text, "EGet"@), SemanticTag::LookupLike) + tag_if(seq_contains(text, "EMap"@), SemanticTag::MapLike) + tag_if(seq_contains(text, "EApp"@), SemanticTag::ApplyLike) + tag_if(seq_contains(text, "Helper"@), SemanticTag::HelperDispatchLike), tag_if(seq_contains(text, "Op"@), SemanticTag::VmOpLike), SemanticTag::EvalLike);
    lemma_tag_if_contains(seq_contains(text, "EIf"@), SemanticTag::BranchLike, SemanticTag::EvalLike);
    lemma_tag_if_contains(seq_contains(text, "EWhile"@), SemanticTag::LoopLike, SemanticTag::EvalLike);
    lemma_tag_if_contains(seq_contains(text, "EGet"@), SemanticTag::LookupLike, SemanticTag::EvalLike);
    lemma_tag_if_contains(seq_contains(text, "EMap"@), SemanticTag::MapLike, SemanticTag::EvalLike);
    lemma_tag_if_contains(seq_contains(text, "EApp"@), SemanticTag::ApplyLike, SemanticTag::EvalLike);
    lemma_tag_if_contains(seq_contains(text, "Helper"@), SemanticTag::HelperDispatchLike, SemanticTag::EvalLike);
    lemma_tag_if_contains(seq_contains(text, "Op"@), SemanticTag::VmOpLike, SemanticTag::EvalLike);
    if found.len() == 0 {
        assert(seq![SemanticTag::EvalLike][0] == SemanticTag::EvalLike);
    } else {
        assert(found.len() > 0);
    }
}

fn push_tag_if(tags: &mut Vec<SemanticTag>, text: &str, marker: &str, tag: SemanticTag)
    ensures
        final(tags)@ == old(tags)@ + tag_if(seq_contains(text@, marker@), tag),
{
    if str_contains(text, marker) {
        tags.push(tag);
        assert(final(tags)@ =~= old(tags)@ + seq![tag]);
    } else {
        assert(old(tags)@ + Seq::<SemanticTag>::empty() =~= old(tags)@);
    }
}

pub fn semantic_tags_for_predicate(predicate: &PredicateRepr) -> (tags: Vec<SemanticTag>)
    ensures
        tags@ == predicate_tags(predicate_text(predicate@)),
{
    let text = predicate.debug_text();
    let t = text.as_str();
    let mut tags: Vec<SemanticTag> = Vec::new();
    push_tag_if(&mut tags, t, "EIf", SemanticTag::BranchLike);
    push_tag_if(&mut tags, t, "EWhile", SemanticTag::LoopLike);
    push_tag_if(&mut tags, t, "EGet", SemanticTag::LookupLike);
    push_tag_if(&mut tags, t, "EMap", SemanticTag::MapLike);
    push_tag_if(&mut tags, t, "EApp", SemanticTag::ApplyLike);
    push_tag_if(&mut tags, t, "Helper", SemanticTag::HelperDispatchLike);
    push_tag_if(&mut tags, t, "Op", SemanticTag::VmOpLike);
    assert(tags@ =~= Seq::<SemanticTag>::empty() + tag_if(seq_contains(text@, "EIf"@), SemanticTag::BranchLike)
        + tag_if(seq_contains(text@, "EWhile"@), SemanticTag::LoopLike) + tag_if(
        seq_contains(text@, "EGet"@),
        SemanticTag::LookupLike,
    ) + tag_if(seq_contains(text@, "EMap"@), SemanticTag::MapLike) + tag_if(
        seq_contains(text@, "EApp"@),
        SemanticTag::ApplyLike,
    ) + tag_if(seq_contains(text@, "Helper"@), SemanticTag::HelperDispatchLike) + tag_if(
        seq_contains(text@, "Op"@),
        SemanticTag::VmOpLike,
    ));
    if tags.len() == 0 {
        tags.push(SemanticTag::EvalLike);
        assert(tags@ =~= seq![SemanticTag::EvalLike]);
    }
    tags
}

/// The semantic tags of a candidate kind.
pub open spec fn candidate_tags(kind: CandidateKindView) -> Seq<SemanticTag> {
    match kind {
        CandidateKindView::AliasRelate => seq![SemanticTag::HelperDispatchLike],
        CandidateKindView::Unknown(_) => seq![SemanticTag::Unknown],
        _ => seq![SemanticTag::EvalLike],
    }
}

pub fn semantic_tags_for_candidate(candidate_kind: &CandidateKind) -> (tags: Vec<SemanticTag>)
    ensures
        tags@ == candidate_tags(candidate_kind@),
{
    let mut tags: Vec<SemanticTag> = Vec::new();
    match candidate_kind {
        CandidateKind::AliasRelate => tags.push(SemanticTag::HelperDispatchLike),
        CandidateKind::Normalize => tags.push(SemanticTag::EvalLike),
        CandidateKind::ParamEnv | CandidateKind::Impl | CandidateKind::Builtin => tags.push(SemanticTag::EvalLike),
        CandidateKind::Unknown(_) => tags.push(SemanticTag::Unknown),
    }
    assert(tags@ =~= candidate_tags(candidate_kind@));
    tags
}

/// The five names a candidate kind is labelled by.
pub open spec fn is_kind_name(s: Seq<char>) -> bool {
    s == "ParamEnv"@ || s == "Impl"@ || s == "Builtin"@ || s == "AliasRelate"@ || s == "Normalize"@
}

/// A text that, in lower case, names none of the candidate kinds.
pub open spec fn names_no_kind(s: Seq<char>) -> bool {
    let lower = lower_seq(s);
    !seq_contains(lower, "paramenv"@) && !seq_contains(lower, "impl"@) && !seq_contains(lower, "builtin"@)
        && !seq_contains(lower, "aliasrelate"@) && !seq_contains(lower, "normalize"@)
}

/// Lowering a candidate kind's label gives the same label back: for the five kind names, and
/// for any text that names no kind (it is kept as an unknown kind's text).
pub proof fn lowering_a_candidate_label_gives_it_back(s: Seq<char>)
    requires
        is_kind_name(s) || names_no_kind(s),
    ensures
        candidate_label(lowered_candidate_kind(s)) == s,
{
    if s == "ParamEnv"@ {
        known_candidate_labels_lower_to_their_kind(CandidateKindView::ParamEnv);
    } else if s == "Impl"@ {
        known_candidate_labels_lower_to_their_kind(CandidateKindView::Impl);
    } else if s == "Builtin"@ {
        known_candidate_labels_lower_to_their_kind(CandidateKindView::Builtin);
    } else if s == "AliasRelate"@ {
        known_candidate_labels_lower_to_their_kind(CandidateKindView::AliasRelate);
    } else if s == "Normalize"@ {
        known_candidate_labels_lower_to_their_kind(CandidateKindView::Normalize);
    }
}

/// `needle` does not occur in `hay` when no two neighbouring characters of `hay` match its first
/// two.
spec fn starts_pair(hay: Seq<char>, needle: Seq<char>, i: int) -> bool {
    hay[i] == needle[0] && hay[i + 1] == needle[1]
}

proof fn lemma_no_occurrence(hay: Seq<char>, needle: Seq<char>)
    requires
        needle.len() >= 2,
        forall|i: int| 0 <= i && i + 1 < hay.len() ==> !#[trigger] starts_pair(hay, needle, i),
    ensures
        !seq_contains(hay, needle),
{
    assert forall|i: int| !#[trigger] occurs_at(hay, needle, i) by {
        if occurs_at(hay, needle, i) {
            assert(hay.subrange(i, i + needle.len())[0] == needle[0]);
            assert(hay.subrange(i, i + needle.len())[1] == needle[1]);
            assert(starts_pair(hay, needle, i));
        }
    }
}

/// A known candidate kind's label, read back as solver debug text, names that kind again.
pub proof fn known_candidate_labels_lower_to_their_kind(k: CandidateKindView)
    requires
        !(k is Unknown),
    ensures
        lowered_candidate_kind(candidate_label(k)) == k,
{
    reveal_strlit("ParamEnv");
    reveal_strlit("Impl");
    reveal_strlit("Builtin");
    reveal_strlit("AliasRelate");
    reveal_strlit("Normalize");
    reveal_strlit("paramenv");
    reveal_strlit("impl");
    reveal_strlit("builtin");
    reveal_strlit("aliasrelate");
    reveal_strlit("normalize");
    let label = candidate_label(k);
    let lower = lower_seq(label);
    match k {
        CandidateKindView::ParamEnv => {
            assert(lower =~= "paramenv"@);
            assert(occurs_at(lower, "paramenv"@, 0));
        },
        CandidateKindView::Impl => {
            assert(lower =~= "impl"@);
            assert(!occurs_at(lower, "paramenv"@, 0));
            lemma_no_occurrence(lower, "paramenv"@);
            assert(occurs_at(lower, "impl"@, 0));
        },
        CandidateKindView::Builtin => {
            assert(lower =~= "builtin"@);
            lemma_no_occurrence(lower, "paramenv"@);
            lemma_no_occurrence(lower, "impl"@);
            assert(occurs_at(lower, "builtin"@, 0));
        },
        CandidateKindView::AliasRelate => {
            assert(lower =~= "aliasrelate"@);
            lemma_no_occurrence(lower, "paramenv"@);
            lemma_no_occurrence(lower, "impl"@);
            lemma_no_occurrence(lower, "builtin"@);
            assert(occurs_at(lower, "aliasrelate"@, 0));
        },
        CandidateKindView::Normalize => {
            assert(lower =~= "normalize"@);
            lemma_no_occurrence(lower, "paramenv"@);
            lemma_no_occurrence(lower, "impl"@);
            lemma_no_occurrence(lower, "builtin"@);
            assert(!seq_contains(lower, "aliasrelate"@)) by {
                assert forall|i: int| !#[trigger] occurs_at(lower, "aliasrelate"@, i) by {}
            }
            assert(occurs_at(lower, "normalize"@, 0));
        },
        CandidateKindView::Unknown(_) => {},
    }
}

/// The text of a call `marker` applied to the sides `a` and `b`, as a predicate's debug text
/// writes it.
pub open spec fn call_text(marker: Seq<char>, a: Seq<char>, b: Seq<char>) -> Seq<char> {
    marker + a + ", "@ + b + ")"@
}

/// The sides of a two-sided predicate that its debug text gives back: both already trimmed, and
/// the left one with its brackets closed and no comma outside them.
pub open spec fn readable_sides(a: Seq<char>, b: Seq<char>) -> bool {
    &&& trim(a) == a
    &&& trim(b) == b
    &&& nesting_depth(a) == 0
    &&& forall|j: int| !#[trigger] top_level_comma_at(a, j)
}

/// A text that starts with `marker` has its first occurrence there.
proof fn lemma_first_at_start(t: Seq<char>, m: Seq<char>)
    requires
        occurs_at(t, m, 0),
    ensures
        first_occurrence(t, m) == Some(0int),
        seq_contains(t, m),
{
    reveal(first_occurrence);
    assert(seq_contains(t, m));
    let i = choose|i: int| occurs_at(t, m, i) && forall|j: int| 0 <= j < i ==> !occurs_at(t, m, j);
    if i > 0 {
        assert(!occurs_at(t, m, 0));
    }
}

/// The body of a call text is its two sides joined by `, `; the call text is its own trim.
proof fn lemma_call_body(m: Seq<char>, a: Seq<char>, b: Seq<char>)
    requires
        m.len() > 0,
        !crate::text::is_ws(m[0]),
    ensures
        first_occurrence(call_text(m, a, b), m) == Some(0int),
        seq_contains(call_text(m, a, b), m),
        call_body(call_text(m, a, b), m) == a + ", "@ + b,
        trim(call_text(m, a, b)) == call_text(m, a, b),
{
    reveal_strlit(", ");
    reveal_strlit(")");
    let t = call_text(m, a, b);
    assert(t.subrange(0, m.len() as int) =~= m);
    lemma_first_at_start(t, m);
    let rest = t.skip(m.len() as int);
    let body = a + ", "@ + b;
    assert(rest =~= body + seq![')']);
    let close = seq![')'];
    reveal(last_occurrence);
    assert(rest.subrange(rest.len() - 1, rest.len() as int) =~= close);
    assert(occurs_at(rest, close, rest.len() - 1));
    assert(seq_contains(rest, close));
    let e = choose|i: int| occurs_at(rest, close, i) && forall|j: int| i < j <= rest.len() ==> !occurs_at(rest, close, j);
    assert(e == rest.len() - 1) by {
        if e < rest.len() - 1 {
            assert(!occurs_at(rest, close, rest.len() - 1));
        }
    }
    assert(rest.take(e) =~= body);
    assert(trim_start(t) == t);
    assert(t.last() == ')');
    assert(trim_end(t) == t);
}

/// Splitting `a, b` at its first comma outside brackets gives the two sides back.
proof fn lemma_split_sides(a: Seq<char>, b: Seq<char>)
    requires
        readable_sides(a, b),
    ensures
        split_top_level_once_spec(a + ", "@ + b) == Some((a, b)),
{
    reveal_strlit(", ");
    let body = a + ", "@ + b;
    let n = a.len() as int;
    assert(body.take(n) =~= a);
    assert(top_level_comma_at(body, n));
    assert forall|j: int| 0 <= j < n implies !top_level_comma_at(body, j) by {
        assert(body.take(j) =~= a.take(j));
        assert(!top_level_comma_at(a, j));
    }
    reveal(first_top_level_comma);
    let i = choose|i: int| top_level_comma_at(body, i) && forall|j: int| 0 <= j < i ==> !top_level_comma_at(body, j);
    assert(i == n) by {
        if i > n {
            assert(!top_level_comma_at(body, n));
        }
    }
    assert(body.skip(n + 1) =~= seq![' '] + b);
    let rb = seq![' '] + b;
    assert(crate::text::is_ws(rb[0]));
    assert(rb.drop_first() =~= b);
    assert(trim_start(rb) == trim_start(b));
}

/// `needle` does not occur in `x + [c] + y` when it occurs in neither `x` nor `y` and does not
/// hold `c`.
proof fn lemma_not_across(x: Seq<char>, c: char, y: Seq<char>, needle: Seq<char>)
    requires
        needle.len() > 0,
        !seq_contains(x, needle),
        !seq_contains(y, needle),
        !needle.contains(c),
    ensures
        !seq_contains(x + seq![c] + y, needle),
{
    let t = x + seq![c] + y;
    let n = needle.len() as int;
    assert forall|i: int| !#[trigger] occurs_at(t, needle, i) by {
        if occurs_at(t, needle, i) {
            let w = t.subrange(i, i + n);
            if i + n <= x.len() {
                assert(x.subrange(i, i + n) =~= w);
                assert(occurs_at(x, needle, i));
            } else if i > x.len() {
                let k = i - x.len() - 1;
                assert(y.subrange(k, k + n) =~= w);
                assert(occurs_at(y, needle, k));
            } else {
                assert(w[x.len() - i] == c);
                assert(needle[x.len() - i] == c);
            }
        }
    }
}

/// `needle` does not occur in `p + y` when it occurs not in `y` and `p` lacks its first character.
proof fn lemma_not_after_prefix(p: Seq<char>, y: Seq<char>, needle: Seq<char>)
    requires
        needle.len() > 0,
        !p.contains(needle[0]),
        !seq_contains(y, needle),
    ensures
        !seq_contains(p + y, needle),
{
    let t = p + y;
    let n = needle.len() as int;
    assert forall|i: int| !#[trigger] occurs_at(t, needle, i) by {
        if occurs_at(t, needle, i) {
            let w = t.subrange(i, i + n);
            if i < p.len() {
                assert(w[0] == p[i]);
            } else {
                let k = i - p.len();
                assert(y.subrange(k, k + n) =~= w);
                assert(occurs_at(y, needle, k));
            }
        }
    }
}

/// The debug text of a `NormalizesTo` predicate does not name `AliasRelate(` when its sides
/// do not.
proof fn lemma_normalizes_text_not_alias(a: Seq<char>, b: Seq<char>)
    requires
        !seq_contains(a, "AliasRelate("@),
        !seq_contains(b, "AliasRelate("@),
    ensures
        !seq_contains(call_text("NormalizesTo("@, a, b), "AliasRelate("@),
{
    reveal_strlit("AliasRelate(");
    reveal_strlit("NormalizesTo(");
    reveal_strlit(", ");
    reveal_strlit(")");
    let n = "AliasRelate("@;
    assert(!n.contains(',')) by {
        if n.contains(',') {
            let k = choose|k: int| 0 <= k < n.len() && n[k] == ',';
        }
    }
    assert(!n.contains(')')) by {
        if n.contains(')') {
            let k = choose|k: int| 0 <= k < n.len() && n[k] == ')';
        }
    }
    assert(!"NormalizesTo("@.contains('A')) by {
        if "NormalizesTo("@.contains('A') {
            let k = choose|k: int| 0 <= k < "NormalizesTo("@.len() && "NormalizesTo("@[k] == 'A';
        }
    }
    assert(!seq![' '].contains('A'));
    assert(!seq_contains(Seq::<char>::empty(), n));
    lemma_not_across(b, ')', Seq::empty(), n);
    assert(b + seq![')'] + Seq::<char>::empty() =~= b + ")"@);
    lemma_not_after_prefix(seq![' '], b + ")"@, n);
    lemma_not_after_prefix("NormalizesTo("@, a, n);
    lemma_not_across("NormalizesTo("@ + a, ',', seq![' '] + (b + ")"@), n);
    assert(call_text("NormalizesTo("@, a, b) =~= ("NormalizesTo("@ + a) + seq![','] + (seq![' '] + (b + ")"@)));
}

/// Lowering the debug text of a two-sided predicate gives the predicate back, when its sides
/// are readable; for `NormalizesTo`, when its sides do not name `AliasRelate(` either.
pub proof fn lowering_reads_back_two_sided_predicates(p: PredicateView)
    requires
        match p {
            PredicateView::AliasRelate { lhs, rhs } => readable_sides(lhs, rhs),
            PredicateView::NormalizesTo { alias, target } => readable_sides(alias, target) && !seq_contains(
                alias,
                "AliasRelate("@,
            ) && !seq_contains(target, "AliasRelate("@),
            _ => false,
        },
    ensures
        lowered_predicate(predicate_text(p)) == p,
{
    reveal_strlit("AliasRelate(");
    reveal_strlit("NormalizesTo(");
    match p {
        PredicateView::AliasRelate { lhs, rhs } => {
            let m = "AliasRelate("@;
            assert(predicate_text(p) == call_text(m, lhs, rhs));
            lemma_call_body(m, lhs, rhs);
            lemma_split_sides(lhs, rhs);
        },
        PredicateView::NormalizesTo { alias, target } => {
            let m = "NormalizesTo("@;
            assert(predicate_text(p) == call_text(m, alias, target));
            lemma_call_body(m, alias, target);
            lemma_split_sides(alias, target);
            lemma_normalizes_text_not_alias(alias, target);
        },
        _ => {},
    }
}

/// A result text lowers by the words it holds, in lower case: `no_solution` or `nosolution`
/// give no solution; otherwise `ambiguous` gives ambiguous; otherwise `unsupported` gives
/// unsupported; otherwise `ok` or `yes` give success; a text with none of them is an error.
/// Each result comes only from its words.
pub proof fn goal_result_follows_its_words(raw: Seq<char>)
    ensures
        seq_contains(lower_seq(raw), "no_solution"@) || seq_contains(lower_seq(raw), "nosolution"@) <==> lowered_goal_result(raw)
            == GoalResult::NoSolution,
        !(seq_contains(lower_seq(raw), "no_solution"@) || seq_contains(lower_seq(raw), "nosolution"@)) && seq_contains(
            lower_seq(raw),
            "ambiguous"@,
        ) <==> lowered_goal_result(raw) == GoalResult::Ambiguous,
        !(seq_contains(lower_seq(raw), "no_solution"@) || seq_contains(lower_seq(raw), "nosolution"@)) && !seq_contains(
            lower_seq(raw),
            "ambiguous"@,
        ) && seq_contains(lower_seq(raw), "unsupported"@) <==> lowered_goal_result(raw) == GoalResult::Unsupported,
        !(seq_contains(lower_seq(raw), "no_solution"@) || seq_contains(lower_seq(raw), "nosolution"@)) && !seq_contains(
            lower_seq(raw),
            "ambiguous"@,
        ) && !seq_contains(lower_seq(raw), "unsupported"@) && (seq_contains(lower_seq(raw), "ok"@) || seq_contains(
            lower_seq(raw),
            "yes"@,
        )) <==> lowered_goal_result(raw) == GoalResult::Success,
{
}

/// Lowering the label of a result other than success gives the result back.
pub proof fn goal_result_labels_lower_back(r: GoalResult)
    requires
        r != GoalResult::Success,
    ensures
        lowered_goal_result(crate::trace::goal_result_label(r)) == r,
{
    reveal_strlit("no_solution");
    reveal_strlit("nosolution");
    reveal_strlit("ambiguous");
    reveal_strlit("unsupported");
    reveal_strlit("ok");
    reveal_strlit("yes");
    reveal_strlit("error");
    let label = crate::trace::goal_result_label(r);
    let lower = lower_seq(label);
    assert(lower =~= label);
    assert forall|i: int| !#[trigger] occurs_at(lower, "no_solution"@, i) || r == GoalResult::NoSolution by {
        if r != GoalResult::NoSolution && occurs_at(lower, "no_solution"@, i) {
            assert(lower.subrange(i, i + 11)[0] == 'n');
            assert(lower.subrange(i, i + 11)[1] == 'o');
        }
    }
    match r {
        GoalResult::NoSolution => {
            assert(occurs_at(lower, "no_solution"@, 0));
        },
        GoalResult::Ambiguous => {
            lemma_no_occurrence(lower, "nosolution"@);
            assert(occurs_at(lower, "ambiguous"@, 0));
        },
        GoalResult::Unsupported => {
            lemma_no_occurrence(lower, "nosolution"@);
            lemma_no_occurrence(lower, "ambiguous"@);
            assert(occurs_at(lower, "unsupported"@, 0));
        },
        GoalResult::Error => {
            lemma_no_occurrence(lower, "nosolution"@);
            lemma_no_occurrence(lower, "ambiguous"@);
            lemma_no_occurrence(lower, "unsupported"@);
            lemma_no_occurrence(lower, "ok"@);
            lemma_no_occurrence(lower, "yes"@);
        },
        GoalResult::Success => {},
    }
}

} // verus!
