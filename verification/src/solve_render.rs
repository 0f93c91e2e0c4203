//! The options of solver views on the command line, and the ways their texts are compacted.
use vstd::prelude::*;

use crate::semantic::SemanticTag;
use crate::solve::GoalTreeCandidate;
use crate::solve_filter::SolveResultFilter;
use crate::tally::{can_compact, compact_spec};
use crate::trace::{goal_result_label, GoalResult};
use crate::text::{decimal, first_occurrence, occurs_at, seq_contains, join_seq, str_chars};

verus! {

broadcast use vstd::seq_lib::group_seq_properties;

/// The goal result a view keeps.
#[derive(Debug, Clone, Copy, PartialEq, Eq, Structural)]
pub enum SolveResultArg {
    Success,
    NoSolution,
    Ambiguous,
    Unsupported,
}

pub open spec fn result_filter_of(value: SolveResultArg) -> SolveResultFilter {
    match value {
        SolveResultArg::Success => SolveResultFilter::Success,
        SolveResultArg::NoSolution => SolveResultFilter::NoSolution,
        SolveResultArg::Ambiguous => SolveResultFilter::Ambiguous,
        SolveResultArg::Unsupported => SolveResultFilter::Unsupported,
    }
}

impl From<SolveResultArg> for SolveResultFilter {
    fn from(value: SolveResultArg) -> (r: Self) {
        match value {
            SolveResultArg::Success => SolveResultFilter::Success,
            SolveResultArg::NoSolution => SolveResultFilter::NoSolution,
            SolveResultArg::Ambiguous => SolveResultFilter::Ambiguous,
            SolveResultArg::Unsupported => SolveResultFilter::Unsupported,
        }
    }
}

impl vstd::std_specs::convert::FromSpecImpl<SolveResultArg> for SolveResultFilter {
    open spec fn obeys_from_spec() -> bool {
        true
    }

    open spec fn from_spec(value: SolveResultArg) -> SolveResultFilter {
        result_filter_of(value)
    }
}

/// The filter a command line result choice stands for (see [`result_filter_of`]).
pub fn solve_result_filter(value: SolveResultArg) -> (r: SolveResultFilter)
    ensures
        r == result_filter_of(value),
{
    value.into()
}

/// The shape of a solver view.
#[derive(Debug, Clone, Copy, PartialEq, Eq, Structural)]
pub enum SolveViewArg {
    Tree,
    Summary,
}

/// How much a solver view compacts its texts.
#[derive(Debug, Clone, Copy, PartialEq, Eq, Structural)]
pub enum CompactModeArg {
    Off,
    Basic,
    Aggressive,
}

/// What a comparison of two solver runs shows.
#[derive(Debug, Clone, Copy, PartialEq, Eq, Structural)]
pub enum SolveDiffViewArg {
    Summary,
    Distribution,
    All,
}

/// How a solver view renders its texts.
#[derive(Debug, Clone, Copy, PartialEq, Eq, Structural)]
pub struct SolveRenderOptions {
    pub compact: CompactModeArg,
    pub show_raw_kind: bool,
    pub show_full_predicate: bool,
}

impl Default for SolveRenderOptions {
    /// Basic compaction, kinds and predicates compacted.
    fn default() -> (r: Self)
        ensures
            r == (SolveRenderOptions { compact: CompactModeArg::Basic, show_raw_kind: false, show_full_predicate: false }),
    {
        SolveRenderOptions { compact: CompactModeArg::Basic, show_raw_kind: false, show_full_predicate: false }
    }
}

/// The pieces of `s` between its `::` separators, scanning from the left.
pub open spec fn path_pieces(s: Seq<char>) -> Seq<Seq<char>>
    decreases s.len(),
{
    match first_occurrence(s, "::"@) {
        Some(i) => if 0 <= i && i + 2 <= s.len() {
            seq![s.take(i)] + path_pieces(s.skip(i + 2))
        } else {
            seq![s]
        },
        None => seq![s],
    }
}

/// The last `keep` segments of a path, when it has more.
pub open spec fn last_segments_spec(text: Seq<char>, keep: nat) -> Seq<char> {
    let parts = path_pieces(text);
    if parts.len() > keep {
        join_seq(parts.skip(parts.len() - keep), "::"@)
    } else {
        text
    }
}

/// The pieces of `text` between its `::` separators (see [`path_pieces`]).
fn path_pieces_exec(text: &str) -> (r: Vec<String>)
    ensures
        crate::text::texts(r@) == path_pieces(text@),
{
    proof {
        reveal_strlit("::");
    }
    let v = str_chars(text);
    let sep = str_chars("::");
    let mut out: Vec<String> = Vec::new();
    let mut start: usize = 0;
    assert(v@.skip(0) =~= v@);
    assert(crate::text::texts(out@) =~= Seq::<Seq<char>>::empty());
    loop
        invariant
            start <= v.len(),
            v@ == text@,
            sep@ == "::"@,
            sep@.len() == 2,
            crate::text::texts(out@) + path_pieces(v@.skip(start as int)) == path_pieces(v@),
        decreases v.len() - start,
    {
        let rest = crate::text::slice_range(&v, start, v.len());
        assert(rest@ =~= v@.skip(start as int));
        match crate::text::find_first(&rest, &sep) {
            Some(i) => {
                let piece = crate::text::string_from_range(&rest, 0, i);
                assert(piece@ =~= rest@.take(i as int));
                let ghost before = out@;
                out.push(piece);
                assert(rest@.skip(i + 2) =~= v@.skip(start + i + 2));
                assert(crate::text::texts(out@) =~= crate::text::texts(before).push(piece@));
                assert(crate::text::texts(out@) + path_pieces(v@.skip(start + i + 2)) =~= crate::text::texts(before) + (
                seq![rest@.take(i as int)] + path_pieces(rest@.skip(i + 2))));
                start = start + i + 2;
            },
            None => {
                let piece = crate::text::string_from_chars(&rest);
                let ghost before = out@;
                out.push(piece);
                assert(crate::text::texts(out@) =~= crate::text::texts(before) + seq![rest@]);
                return out;
            },
        }
    }
}

/// The last `keep` segments of a path, when it has more (see [`last_segments_spec`]).
pub fn compact_path_segments(text: &str, keep: usize) -> (r: String)
    ensures
        r@ == last_segments_spec(text@, keep as nat),
{
    let parts = path_pieces_exec(text);
    if parts.len() > keep {
        let from: usize = parts.len() - keep;
        let mut tail: Vec<String> = Vec::new();
        let mut i: usize = from;
        while i < parts.len()
            invariant
                from <= i <= parts.len(),
                crate::text::texts(parts@) == path_pieces(text@),
                crate::text::texts(tail@) =~= crate::text::texts(parts@).subrange(from as int, i as int),
            decreases parts.len() - i,
        {
            let piece = crate::text::copy_str(parts[i].as_str());
            assert(piece@ == crate::text::texts(parts@)[i as int]);
            let ghost before = tail@;
            tail.push(piece);
            assert(crate::text::texts(tail@) =~= crate::text::texts(before).push(piece@));
            i += 1;
        }
        assert(crate::text::texts(parts@).subrange(from as int, i as int) =~= crate::text::texts(parts@).skip(
            from as int,
        ));
        crate::text::join(&tail, "::")
    } else {
        crate::text::copy_str(text)
    }
}

/// A candidate's detail as a view shows it: raw when raw kinds are shown, else its last four
/// path segments cut to 120 bytes.
pub open spec fn candidate_detail_spec(raw: Seq<char>, options: SolveRenderOptions) -> Seq<char> {
    if options.show_raw_kind {
        raw
    } else {
        compact_spec(last_segments_spec(raw, 4), 120)
    }
}

/// A candidate's detail as a view shows it (see [`candidate_detail_spec`]).
pub fn compact_candidate_detail(raw: &str, options: SolveRenderOptions) -> (r: String)
    requires
        !options.show_raw_kind ==> can_compact(last_segments_spec(raw@, 4), 120),
    ensures
        r@ == candidate_detail_spec(raw@, options),
{
    if options.show_raw_kind {
        crate::text::copy_str(raw)
    } else {
        let segments = compact_path_segments(raw, 4);
        crate::tally::compact_text(segments.as_str(), 120)
    }
}

/// A result label as a view shows it: whole; up to its first `(` with `(...)`; or, compacted
/// hard, what follows its first `::` (or all of it) cut to 120 bytes.
pub open spec fn compact_result_spec(raw: Seq<char>, mode: CompactModeArg) -> Seq<char> {
    match mode {
        CompactModeArg::Off => raw,
        CompactModeArg::Basic => match raw.index_of_first('(') {
            Some(i) => raw.take(i) + "(...)"@,
            None => raw,
        },
        CompactModeArg::Aggressive => match first_occurrence(raw, "::"@) {
            Some(i) => compact_spec(raw.skip(i + 2), 120),
            None => compact_spec(raw, 120),
        },
    }
}

/// The text a hard compaction of a result label cuts.
pub open spec fn aggressive_result_part(raw: Seq<char>) -> Seq<char> {
    match first_occurrence(raw, "::"@) {
        Some(i) => raw.skip(i + 2),
        None => raw,
    }
}

/// A result label as a view shows it (see [`compact_result_spec`]).
pub fn compact_result(raw: &str, mode: CompactModeArg) -> (r: String)
    requires
        mode == CompactModeArg::Aggressive ==> can_compact(aggressive_result_part(raw@), 120),
    ensures
        r@ == compact_result_spec(raw@, mode),
{
    let v = str_chars(raw);
    match mode {
        CompactModeArg::Off => crate::text::copy_str(raw),
        CompactModeArg::Basic => {
            let mut i: usize = 0;
            while i < v.len() && v[i] != '('
                invariant
                    i <= v.len(),
                    forall|k: int| 0 <= k < i ==> v@[k] != '(',
                decreases v.len() - i,
            {
                i += 1;
            }
            proof {
                v@.index_of_first_ensures('(');
            }
            if i < v.len() {
                proof {
                    assert(v@.contains('('));
                    let j = v@.index_of_first('(')->0;
                    if j < i {
                        assert(v@[j] != '(');
                    }
                    if j > i {
                        assert(v@[i as int] == '(');
                    }
                }
                let mut r = crate::text::string_from_range(&v, 0, i);
                assert(v@.subrange(0, i as int) =~= v@.take(i as int));
                crate::text::push_str(&mut r, "(...)");
                r
            } else {
                assert(!v@.contains('(')) by {
                    if v@.contains('(') {
                        let k = choose|k: int| 0 <= k < v@.len() && v@[k] == '(';
                        assert(v@[k] != '(');
                    }
                }
                crate::text::copy_str(raw)
            }
        },
        CompactModeArg::Aggressive => {
            proof {
                reveal_strlit("::");
            }
            let sep = str_chars("::");
            assert(sep@.len() == 2);
            match crate::text::find_first(&v, &sep) {
                Some(i) => {
                    let start: usize = i + sep.len();
                    let tail = crate::text::string_from_range(&v, start, v.len());
                    assert(tail@ =~= v@.skip(i + 2));
                    crate::tally::compact_text(tail.as_str(), 120)
                },
                None => crate::tally::compact_text(raw, 120),
            }
        },
    }
}

/// A goal result's label as a view shows it (see [`compact_result_spec`]).
pub fn compact_goal_result(result: GoalResult, mode: CompactModeArg) -> (r: String)
    ensures
        r@ == compact_result_spec(goal_result_label(result), mode),
{
    let label = result.label();
    proof {
        let part = aggressive_result_part(label@);
        reveal(first_occurrence);
        reveal_strlit("::");
        reveal_strlit("success");
        reveal_strlit("no_solution");
        reveal_strlit("ambiguous");
        reveal_strlit("unsupported");
        reveal_strlit("error");
        if seq_contains(label@, "::"@) {
            let i = choose|i: int|
                occurs_at(label@, "::"@, i) && forall|j: int| 0 <= j < i ==> !occurs_at(label@, "::"@, j);
            assert(occurs_at(label@, "::"@, i));
        }
        assert(part.len() <= label@.len());
        crate::tally::lemma_utf8_len_bound(part);
    }
    compact_result(label, mode)
}

/// The labels of semantic tags joined by commas, none for no tags.
pub fn semantic_tags_text(tags: &Vec<SemanticTag>) -> (r: Option<String>)
    ensures
        match r {
            Some(t) => tags@.len() > 0 && t@ == crate::trace::tags_text(tags@),
            None => tags@.len() == 0,
        },
{
    if tags.len() == 0 {
        None
    } else {
        Some(crate::trace::semantic_tags_joined(tags))
    }
}

/// The raw kind a candidate's metadata records.
pub fn candidate_raw_kind(candidate: &GoalTreeCandidate) -> (r: Option<&String>)
    ensures
        match r {
            Some(v) => candidate.metadata.spec_get("raw_candidate_kind"@) == Some(v@),
            None => candidate.metadata.spec_get("raw_candidate_kind"@) is None,
        },
{
    candidate.metadata.get("raw_candidate_kind")
}

/// A signed number with its sign written, `+` for zero and above.
pub open spec fn signed_text(d: int) -> Seq<char> {
    if d >= 0 {
        "+"@ + decimal(d as nat)
    } else {
        "-"@ + decimal((-d) as nat)
    }
}

/// The line comparing a figure of two runs: `name: left=.. right=.. delta=±..`.
pub fn format_metric_diff(name: &str, left: usize, right: usize, delta: isize) -> (r: String)
    ensures
        r@ == name@ + ": left="@ + decimal(left as nat) + " right="@ + decimal(right as nat) + " delta="@ + signed_text(
            delta as int,
        ),
{
    let mut r = crate::text::copy_str(name);
    crate::text::push_str(&mut r, ": left=");
    crate::text::push_usize(&mut r, left);
    crate::text::push_str(&mut r, " right=");
    crate::text::push_usize(&mut r, right);
    crate::text::push_str(&mut r, " delta=");
    let d: i128 = delta as i128;
    if d >= 0 {
        crate::text::push_str(&mut r, "+");
        crate::text::push_u64(&mut r, d as u64);
    } else {
        crate::text::push_str(&mut r, "-");
        crate::text::push_u64(&mut r, (-d) as u64);
    }
    r
}

} // verus!
