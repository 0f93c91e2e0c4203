//! Reading back the figures of a solver summary from its text.
use vstd::prelude::*;

use crate::query::{all_digits, parse_usize, parse_usize_spec};
use crate::text::{copy_str, first_occurrence, is_ascii_digit_char, lower_seq, seq_ends_with, str_chars, str_ends_with, str_eq, texts, to_lower};
use crate::trace::{json_lines, json_lines_spec};

verus! {

broadcast use vstd::seq_lib::group_seq_properties;

/// A label of a summary list and how often it occurred.
#[derive(Debug, Clone, PartialEq, Eq)]
pub struct SolveSummaryEntry {
    pub label: String,
    pub count: usize,
}

/// The figures of a solver summary. The average number of candidates per goal is kept as the
/// text the summary wrote, which reads as a float; reading it as a number is left to the caller.
#[derive(Debug, Clone, PartialEq, Eq)]
pub struct SolveSummary {
    pub subjects: usize,
    pub root_goals: usize,
    pub goals: usize,
    pub candidates: usize,
    pub max_goal_depth: usize,
    pub avg_candidates_per_goal: String,
    pub result_ok: usize,
    pub result_no_solution: usize,
    pub result_ambiguous: usize,
    pub result_unsupported: usize,
    pub top_predicates: Vec<SolveSummaryEntry>,
    pub top_candidate_kinds: Vec<SolveSummaryEntry>,
}

/// The list a summary line belongs to.
#[derive(Debug, Clone, Copy, PartialEq, Eq, Structural)]
pub enum SummarySection {
    Plain,
    Predicates,
    CandidateKinds,
    Skip,
}

pub open spec fn entry_views(v: Seq<SolveSummaryEntry>) -> Seq<(Seq<char>, usize)> {
    v.map_values(|e: SolveSummaryEntry| (e.label@, e.count))
}

/// What the lines read so far have given: the `key=value` pairs in order, the list being read,
/// the entries of the two kept lists, and whether a count failed to read.
pub struct ScanView {
    pub values: Seq<(Seq<char>, Seq<char>)>,
    pub section: SummarySection,
    pub preds: Seq<(Seq<char>, usize)>,
    pub kinds: Seq<(Seq<char>, usize)>,
    pub failed: bool,
}

/// Reading one trimmed line: a list heading opens that list (an unknown one is skipped); a
/// `key=value` line records the pair and closes the list; a `count :: label` line adds to the
/// open list, and a count that does not read fails the whole reading.
pub open spec fn scan_step(st: ScanView, line: Seq<char>) -> ScanView {
    if st.failed {
        st
    } else if line == "top_predicates:"@ {
        ScanView { section: SummarySection::Predicates, ..st }
    } else if line == "top_candidate_kinds:"@ {
        ScanView { section: SummarySection::CandidateKinds, ..st }
    } else if seq_ends_with(line, ":"@) {
        ScanView { section: SummarySection::Skip, ..st }
    } else {
        match line.index_of_first('=') {
            Some(i) => ScanView {
                values: st.values.push((line.take(i), line.skip(i + 1))),
                section: SummarySection::Plain,
                ..st
            },
            None => match first_occurrence(line, " :: "@) {
                Some(i) => match parse_usize_spec(line.take(i)) {
                    None => ScanView { failed: true, ..st },
                    Some(n) => match st.section {
                        SummarySection::Predicates => ScanView { preds: st.preds.push((line.skip(i + 4), n)), ..st },
                        SummarySection::CandidateKinds => ScanView {
                            kinds: st.kinds.push((line.skip(i + 4), n)),
                            ..st
                        },
                        _ => st,
                    },
                },
                None => st,
            },
        }
    }
}

/// Reading the lines in order.
pub open spec fn scan(lines: Seq<Seq<char>>) -> ScanView
    decreases lines.len(),
{
    if lines.len() == 0 {
        ScanView {
            values: Seq::empty(),
            section: SummarySection::Plain,
            preds: Seq::empty(),
            kinds: Seq::empty(),
            failed: false,
        }
    } else {
        scan_step(scan(lines.drop_last()), lines.last())
    }
}

/// The value recorded last under `key`.
pub open spec fn last_value(values: Seq<(Seq<char>, Seq<char>)>, key: Seq<char>) -> Option<Seq<char>>
    decreases values.len(),
{
    if values.len() == 0 {
        None
    } else if values.last().0 == key {
        Some(values.last().1)
    } else {
        last_value(values.drop_last(), key)
    }
}

/// The count recorded last under `key`, when there is one and it reads.
pub open spec fn count_of(values: Seq<(Seq<char>, Seq<char>)>, key: Seq<char>) -> Option<usize> {
    match last_value(values, key) {
        Some(t) => parse_usize_spec(t),
        None => None,
    }
}

/// The text after an optional leading sign.
pub open spec fn signless(s: Seq<char>) -> Seq<char> {
    if s.len() > 0 && (s[0] == '+' || s[0] == '-') {
        s.drop_first()
    } else {
        s
    }
}

/// The digits before and after an optional `.`, with at least one digit in all.
pub open spec fn mantissa_syntax(m: Seq<char>) -> bool {
    match m.index_of_first('.') {
        Some(d) => all_digits(m.take(d)) && all_digits(m.skip(d + 1)) && m.len() > 1,
        None => m.len() > 0 && all_digits(m),
    }
}

/// An exponent's digits, after an optional sign.
pub open spec fn exponent_syntax(x: Seq<char>) -> bool {
    signless(x).len() > 0 && all_digits(signless(x))
}

/// A decimal number in lower case: a mantissa, then an optional `e` and exponent.
pub open spec fn number_syntax(b: Seq<char>) -> bool {
    match b.index_of_first('e') {
        Some(k) => mantissa_syntax(b.take(k)) && exponent_syntax(b.skip(k + 1)),
        None => mantissa_syntax(b),
    }
}

/// What `str::parse::<f64>` accepts, as std documents it: an optional sign, then, in any case,
/// `inf`, `infinity`, `nan`, or a decimal number with an optional exponent.
pub open spec fn float_syntax(s: Seq<char>) -> bool {
    let b = lower_seq(signless(s));
    b == "inf"@ || b == "infinity"@ || b == "nan"@ || number_syntax(b)
}

fn first_index(v: &Vec<char>, c: char) -> (r: Option<usize>)
    ensures
        match r {
            Some(i) => v@.index_of_first(c) == Some(i as int) && i < v.len(),
            None => v@.index_of_first(c) is None,
        },
{
    let mut i: usize = 0;
    while i < v.len() && v[i] != c
        invariant
            i <= v.len(),
            forall|k: int| 0 <= k < i ==> v@[k] != c,
        decreases v.len() - i,
    {
        i += 1;
    }
    proof {
        v@.index_of_first_ensures(c);
    }
    if i < v.len() {
        proof {
            assert(v@.contains(c));
            let j = v@.index_of_first(c)->0;
            if j < i {
                assert(v@[j] != c);
            }
            if j > i {
                assert(v@[i as int] == c);
            }
        }
        Some(i)
    } else {
        assert(!v@.contains(c)) by {
            if v@.contains(c) {
                let k = choose|k: int| 0 <= k < v@.len() && v@[k] == c;
                assert(v@[k] != c);
            }
        }
        None
    }
}

fn digits_only(v: &Vec<char>, lo: usize, hi: usize) -> (b: bool)
    requires
        lo <= hi <= v.len(),
    ensures
        b == all_digits(v@.subrange(lo as int, hi as int)),
{
    let mut i = lo;
    while i < hi
        invariant
            lo <= i <= hi <= v.len(),
            forall|k: int| lo <= k < i ==> is_ascii_digit_char(#[trigger] v@[k]),
        decreases hi - i,
    {
        if !('0' <= v[i] && v[i] <= '9') {
            assert(v@.subrange(lo as int, hi as int)[i - lo] == v@[i as int]);
            return false;
        }
        i += 1;
    }
    assert forall|k: int| 0 <= k < hi - lo implies is_ascii_digit_char(#[trigger] v@.subrange(lo as int, hi as int)[k]) by {
        assert(v@.subrange(lo as int, hi as int)[k] == v@[lo + k]);
    }
    true
}

fn signless_start(v: &Vec<char>) -> (r: usize)
    ensures
        r <= v.len(),
        v@.skip(r as int) == signless(v@),
{
    if v.len() > 0 && (v[0] == '+' || v[0] == '-') {
        assert(v@.skip(1) =~= v@.drop_first());
        1
    } else {
        assert(v@.skip(0) =~= v@);
        0
    }
}

fn mantissa_ok(m: &Vec<char>) -> (b: bool)
    ensures
        b == mantissa_syntax(m@),
{
    match first_index(m, '.') {
        Some(d) => {
            assert(m@.subrange(0, d as int) =~= m@.take(d as int));
            assert(m@.subrange(d + 1, m.len() as int) =~= m@.skip(d + 1));
            digits_only(m, 0, d) && digits_only(m, d + 1, m.len()) && m.len() > 1
        },
        None => {
            assert(m@.subrange(0, m.len() as int) =~= m@);
            m.len() > 0 && digits_only(m, 0, m.len())
        },
    }
}

/// Whether `text` is a float as `str::parse::<f64>` accepts it (see [`float_syntax`]).
pub fn is_float_text(text: &str) -> (b: bool)
    ensures
        b == float_syntax(text@),
{
    let v = str_chars(text);
    let start = signless_start(&v);
    let body = crate::text::slice_range(&v, start, v.len());
    assert(body@ =~= v@.skip(start as int));
    let lower = to_lower(crate::text::string_from_chars(&body).as_str());
    let l = lower.as_str();
    if str_eq(l, "inf") || str_eq(l, "infinity") || str_eq(l, "nan") {
        return true;
    }
    let b = str_chars(l);
    match first_index(&b, 'e') {
        Some(k) => {
            let m = crate::text::slice_range(&b, 0, k);
            let x = crate::text::slice_range(&b, k + 1, b.len());
            assert(m@ =~= b@.take(k as int));
            assert(x@ =~= b@.skip(k + 1));
            let xs = signless_start(&x);
            assert(x@.subrange(xs as int, x.len() as int) =~= x@.skip(xs as int));
            mantissa_ok(&m) && x.len() > xs && digits_only(&x, xs, x.len())
        },
        None => mantissa_ok(&b),
    }
}

/// The mathematical value of a [`SolveSummary`].
pub struct SummaryView {
    pub subjects: usize,
    pub root_goals: usize,
    pub goals: usize,
    pub candidates: usize,
    pub max_goal_depth: usize,
    pub avg_candidates_per_goal: Seq<char>,
    pub result_ok: usize,
    pub result_no_solution: usize,
    pub result_ambiguous: usize,
    pub result_unsupported: usize,
    pub top_predicates: Seq<(Seq<char>, usize)>,
    pub top_candidate_kinds: Seq<(Seq<char>, usize)>,
}

impl View for SolveSummary {
    type V = SummaryView;

    open spec fn view(&self) -> SummaryView {
        SummaryView {
            subjects: self.subjects,
            root_goals: self.root_goals,
            goals: self.goals,
            candidates: self.candidates,
            max_goal_depth: self.max_goal_depth,
            avg_candidates_per_goal: self.avg_candidates_per_goal@,
            result_ok: self.result_ok,
            result_no_solution: self.result_no_solution,
            result_ambiguous: self.result_ambiguous,
            result_unsupported: self.result_unsupported,
            top_predicates: entry_views(self.top_predicates@),
            top_candidate_kinds: entry_views(self.top_candidate_kinds@),
        }
    }
}

/// The summary a text gives: read over its trimmed, non-empty lines; none where a list count
/// fails to read, or one of the figures is missing or does not read (the average as a float).
pub open spec fn summary_spec(input: Seq<char>) -> Option<SummaryView> {
    let st = scan(json_lines_spec(input));
    let v = st.values;
    if !st.failed && count_of(v, "subjects"@) is Some && count_of(v, "root_goals"@) is Some && count_of(v, "goals"@) is Some
        && count_of(v, "candidates"@) is Some && count_of(v, "max_goal_depth"@) is Some && last_value(
        v,
        "avg_candidates_per_goal"@,
    ) is Some && float_syntax(last_value(v, "avg_candidates_per_goal"@)->0) && count_of(v, "result.ok"@) is Some && count_of(v, "result.no_solution"@) is Some && count_of(
        v,
        "result.ambiguous"@,
    ) is Some && count_of(v, "result.unsupported"@) is Some {
        Some(
            SummaryView {
                subjects: count_of(v, "subjects"@)->0,
                root_goals: count_of(v, "root_goals"@)->0,
                goals: count_of(v, "goals"@)->0,
                candidates: count_of(v, "candidates"@)->0,
                max_goal_depth: count_of(v, "max_goal_depth"@)->0,
                avg_candidates_per_goal: last_value(v, "avg_candidates_per_goal"@)->0,
                result_ok: count_of(v, "result.ok"@)->0,
                result_no_solution: count_of(v, "result.no_solution"@)->0,
                result_ambiguous: count_of(v, "result.ambiguous"@)->0,
                result_unsupported: count_of(v, "result.unsupported"@)->0,
                top_predicates: st.preds,
                top_candidate_kinds: st.kinds,
            },
        )
    } else {
        None
    }
}

pub open spec fn pair_views(v: Seq<(String, String)>) -> Seq<(Seq<char>, Seq<char>)> {
    v.map_values(|p: (String, String)| (p.0@, p.1@))
}

fn last_value_exec(values: &Vec<(String, String)>, key: &str) -> (r: Option<String>)
    ensures
        match r {
            Some(t) => last_value(pair_views(values@), key@) == Some(t@),
            None => last_value(pair_views(values@), key@) is None,
        },
{
    let mut i: usize = values.len();
    while i > 0
        invariant
            i <= values.len(),
            last_value(pair_views(values@), key@) == last_value(pair_views(values@).take(i as int), key@),
        decreases i,
    {
        let ghost t = pair_views(values@).take(i as int);
        assert(t.drop_last() =~= pair_views(values@).take(i - 1));
        assert(t.last() == (values@[i - 1].0@, values@[i - 1].1@));
        if str_eq(values[i - 1].0.as_str(), key) {
            return Some(copy_str(values[i - 1].1.as_str()));
        }
        i -= 1;
    }
    None
}

fn count_exec(values: &Vec<(String, String)>, key: &str) -> (r: Option<usize>)
    ensures
        r == count_of(pair_views(values@), key@),
{
    match last_value_exec(values, key) {
        Some(t) => parse_usize(t.as_str()),
        None => None,
    }
}

/// Reads the lines in order (see [`scan`]); `None` once a count fails to read.
fn scan_lines(lines: &Vec<String>) -> (r: Option<(Vec<(String, String)>, Vec<SolveSummaryEntry>, Vec<SolveSummaryEntry>)>)
    ensures
        match r {
            Some((values, preds, kinds)) => {
                let st = scan(texts(lines@));
                &&& !st.failed
                &&& pair_views(values@) == st.values
                &&& entry_views(preds@) == st.preds
                &&& entry_views(kinds@) == st.kinds
            },
            None => scan(texts(lines@)).failed,
        },
{
    let mut values: Vec<(String, String)> = Vec::new();
    let mut preds: Vec<SolveSummaryEntry> = Vec::new();
    let mut kinds: Vec<SolveSummaryEntry> = Vec::new();
    let mut section = SummarySection::Plain;
    let ghost ls = texts(lines@);
    let mut k: usize = 0;
    assert(ls.take(0) =~= Seq::<Seq<char>>::empty());
    assert(pair_views(values@) =~= Seq::<(Seq<char>, Seq<char>)>::empty());
    assert(entry_views(preds@) =~= Seq::<(Seq<char>, usize)>::empty());
    assert(entry_views(kinds@) =~= Seq::<(Seq<char>, usize)>::empty());
    while k < lines.len()
        invariant
            k <= lines.len(),
            ls == texts(lines@),
            !scan(ls.take(k as int)).failed,
            scan(ls.take(k as int)) == (ScanView {
                values: pair_views(values@),
                section,
                preds: entry_views(preds@),
                kinds: entry_views(kinds@),
                failed: false,
            }),
        decreases lines.len() - k,
    {
        proof {
            reveal_strlit("top_predicates:");
            reveal_strlit("top_candidate_kinds:");
            reveal_strlit(":");
            reveal_strlit(" :: ");
        }
        let line = lines[k].as_str();
        let ghost lv = line@;
        assert(ls.take(k + 1).drop_last() =~= ls.take(k as int));
        assert(ls.take(k + 1).last() == lv);
        let ghost before = scan(ls.take(k as int));
        if str_eq(line, "top_predicates:") {
            section = SummarySection::Predicates;
        } else if str_eq(line, "top_candidate_kinds:") {
            section = SummarySection::CandidateKinds;
        } else if str_ends_with(line, ":") {
            section = SummarySection::Skip;
        } else {
            let v = str_chars(line);
            let mut eq: usize = 0;
            while eq < v.len() && v[eq] != '='
                invariant
                    eq <= v.len(),
                    forall|j: int| 0 <= j < eq ==> v@[j] != '=',
                decreases v.len() - eq,
            {
                eq += 1;
            }
            proof {
                v@.index_of_first_ensures('=');
            }
            if eq < v.len() {
                proof {
                    assert(v@.contains('='));
                    let j = v@.index_of_first('=')->0;
                    if j < eq {
                        assert(v@[j] != '=');
                    }
                    if j > eq {
                        assert(v@[eq as int] == '=');
                    }
                }
                let key = crate::text::string_from_range(&v, 0, eq);
                let value = crate::text::string_from_range(&v, eq + 1, v.len());
                assert(key@ =~= lv.take(eq as int));
                assert(value@ =~= lv.skip(eq + 1));
                let ghost pv = pair_views(values@);
                values.push((key, value));
                assert(pair_views(values@) =~= pv.push((lv.take(eq as int), lv.skip(eq + 1))));
                section = SummarySection::Plain;
            } else {
                assert(!v@.contains('=')) by {
                    if v@.contains('=') {
                        let j = choose|j: int| 0 <= j < v@.len() && v@[j] == '=';
                        assert(v@[j] != '=');
                    }
                }
                let sep = str_chars(" :: ");
                match crate::text::find_first(&v, &sep) {
                    Some(i) => {
                        let count_text = crate::text::string_from_range(&v, 0, i);
                        assert(count_text@ =~= lv.take(i as int));
                        match parse_usize(count_text.as_str()) {
                            None => {
                                assert(scan(ls.take(k + 1)).failed);
                                proof {
                                    lemma_failed_stays(ls, k as int + 1);
                                }
                                assert(ls.take(ls.len() as int) =~= ls);
                                return None;
                            },
                            Some(n) => {
                                let start: usize = i + sep.len();
                                let label = crate::text::string_from_range(&v, start, v.len());
                                assert(label@ =~= lv.skip(i + 4));
                                match section {
                                    SummarySection::Predicates => {
                                        let ghost pv = entry_views(preds@);
                                        preds.push(SolveSummaryEntry { label, count: n });
                                        assert(entry_views(preds@) =~= pv.push((lv.skip(i + 4), n)));
                                    },
                                    SummarySection::CandidateKinds => {
                                        let ghost kv = entry_views(kinds@);
                                        kinds.push(SolveSummaryEntry { label, count: n });
                                        assert(entry_views(kinds@) =~= kv.push((lv.skip(i + 4), n)));
                                    },
                                    _ => {},
                                }
                            },
                        }
                    },
                    None => {},
                }
            }
        }
        k += 1;
    }
    assert(ls.take(lines.len() as int) =~= ls);
    Some((values, preds, kinds))
}

/// Once a reading has failed it stays failed.
proof fn lemma_failed_stays(ls: Seq<Seq<char>>, k: int)
    requires
        0 <= k <= ls.len(),
        scan(ls.take(k)).failed,
    ensures
        scan(ls).failed,
    decreases ls.len() - k,
{
    if k < ls.len() {
        assert(ls.take(k + 1).drop_last() =~= ls.take(k));
        lemma_failed_stays(ls, k + 1);
    } else {
        assert(ls.take(k) =~= ls);
    }
}

/// The summary a text gives (see [`summary_spec`]).
pub fn parse_summary_text(input: &str) -> (r: Option<SolveSummary>)
    ensures
        match r {
            Some(s) => summary_spec(input@) == Some(s@),
            None => summary_spec(input@) is None,
        },
{
    let lines = json_lines(input);
    let (values, top_predicates, top_candidate_kinds) = match scan_lines(&lines) {
        Some(t) => t,
        None => return None,
    };
    let subjects = match count_exec(&values, "subjects") { Some(n) => n, None => return None };
    let root_goals = match count_exec(&values, "root_goals") { Some(n) => n, None => return None };
    let goals = match count_exec(&values, "goals") { Some(n) => n, None => return None };
    let candidates = match count_exec(&values, "candidates") { Some(n) => n, None => return None };
    let max_goal_depth = match count_exec(&values, "max_goal_depth") { Some(n) => n, None => return None };
    let avg_candidates_per_goal = match last_value_exec(&values, "avg_candidates_per_goal") {
        Some(t) => t,
        None => return None,
    };
    if !is_float_text(avg_candidates_per_goal.as_str()) {
        return None;
    }
    let result_ok = match count_exec(&values, "result.ok") { Some(n) => n, None => return None };
    let result_no_solution = match count_exec(&values, "result.no_solution") { Some(n) => n, None => return None };
    let result_ambiguous = match count_exec(&values, "result.ambiguous") { Some(n) => n, None => return None };
    let result_unsupported = match count_exec(&values, "result.unsupported") { Some(n) => n, None => return None };
    Some(
        SolveSummary {
            subjects,
            root_goals,
            goals,
            candidates,
            max_goal_depth,
            avg_candidates_per_goal,
            result_ok,
            result_no_solution,
            result_ambiguous,
            result_unsupported,
            top_predicates,
            top_candidate_kinds,
        },
    )
}

} // verus!
