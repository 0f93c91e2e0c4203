//! Reports on cargo self-profile summaries and chrome profiler traces.
use vstd::prelude::*;

use crate::chrome::{ChromeEvent, examples_compactable, is_chrome_analysis, queries_after, total_of};
use crate::summarize::{SummarizeJson, is_summary_analysis, summary_fits};
use crate::text::{str_chars, decimal, join, join_seq, push_str, seq_contains, str_contains, texts, u64_text};

verus! {

/// What a profiled compiler query does, read from its name.
#[derive(Debug, Clone, Copy, PartialEq, Eq, Structural)]
pub enum CargoProfileSemanticKind {
    TypeCheck,
    Branching,
    ConstraintSolve,
    ConstEval,
    MirBuild,
    TypeAscription,
    WellFormedness,
    InstanceResolution,
    Layout,
    Monomorphization,
    Linking,
    Unknown,
}

pub open spec fn semantic_kind_label(k: CargoProfileSemanticKind) -> Seq<char> {
    match k {
        CargoProfileSemanticKind::TypeCheck => "type_check"@,
        CargoProfileSemanticKind::Branching => "branching"@,
        CargoProfileSemanticKind::ConstraintSolve => "constraint_solve"@,
        CargoProfileSemanticKind::ConstEval => "const_eval"@,
        CargoProfileSemanticKind::MirBuild => "mir_build"@,
        CargoProfileSemanticKind::TypeAscription => "type_ascription"@,
        CargoProfileSemanticKind::WellFormedness => "well_formedness"@,
        CargoProfileSemanticKind::InstanceResolution => "instance_resolution"@,
        CargoProfileSemanticKind::Layout => "layout"@,
        CargoProfileSemanticKind::Monomorphization => "monomorphization"@,
        CargoProfileSemanticKind::Linking => "linking"@,
        CargoProfileSemanticKind::Unknown => "unknown"@,
    }
}

impl CargoProfileSemanticKind {
    pub fn label(self) -> (r: &'static str)
        ensures
            r@ == semantic_kind_label(self),
    {
        match self {
            CargoProfileSemanticKind::TypeCheck => "type_check",
            CargoProfileSemanticKind::Branching => "branching",
            CargoProfileSemanticKind::ConstraintSolve => "constraint_solve",
            CargoProfileSemanticKind::ConstEval => "const_eval",
            CargoProfileSemanticKind::MirBuild => "mir_build",
            CargoProfileSemanticKind::TypeAscription => "type_ascription",
            CargoProfileSemanticKind::WellFormedness => "well_formedness",
            CargoProfileSemanticKind::InstanceResolution => "instance_resolution",
            CargoProfileSemanticKind::Layout => "layout",
            CargoProfileSemanticKind::Monomorphization => "monomorphization",
            CargoProfileSemanticKind::Linking => "linking",
            CargoProfileSemanticKind::Unknown => "unknown",
        }
    }
}

/// The shape of the types a profiled query worked on, read from its argument.
#[derive(Debug, Clone, Copy, PartialEq, Eq, Structural)]
pub enum CargoProfileDomainKind {
    VmState,
    RunVm,
    HostRequest,
    PeanoNat,
    TypeList,
    TypeApply,
}

pub open spec fn domain_kind_label(k: CargoProfileDomainKind) -> Seq<char> {
    match k {
        CargoProfileDomainKind::VmState => "vm_state"@,
        CargoProfileDomainKind::RunVm => "run_vm"@,
        CargoProfileDomainKind::HostRequest => "host_request"@,
        CargoProfileDomainKind::PeanoNat => "peano_nat"@,
        CargoProfileDomainKind::TypeList => "type_list"@,
        CargoProfileDomainKind::TypeApply => "type_apply"@,
    }
}

impl CargoProfileDomainKind {
    pub fn label(self) -> (r: &'static str)
        ensures
            r@ == domain_kind_label(self),
    {
        match self {
            CargoProfileDomainKind::VmState => "vm_state",
            CargoProfileDomainKind::RunVm => "run_vm",
            CargoProfileDomainKind::HostRequest => "host_request",
            CargoProfileDomainKind::PeanoNat => "peano_nat",
            CargoProfileDomainKind::TypeList => "type_list",
            CargoProfileDomainKind::TypeApply => "type_apply",
        }
    }
}

/// A label with the time and the number of events counted under it.
#[derive(Debug, Clone, PartialEq, Eq)]
pub struct DurationCount {
    pub label: String,
    pub total_us: u64,
    pub count: u64,
}

/// One of the longest events of a chrome trace.
#[derive(Debug, Clone, PartialEq, Eq)]
pub struct ChromeLongestEvent {
    pub name: String,
    pub category: String,
    pub total_us: u64,
    pub thread_id: Option<u64>,
    pub start_us: Option<u64>,
    pub arg0: Option<String>,
}

/// A compiler query and the time spent in it.
#[derive(Debug, Clone, PartialEq, Eq)]
pub struct QueryHotspot {
    pub name: String,
    pub total_us: u64,
    pub count: u64,
    pub max_us: u64,
    pub example_arg0: Option<String>,
    pub semantic_kinds: Vec<CargoProfileSemanticKind>,
    pub domain_kinds: Vec<CargoProfileDomainKind>,
}

/// An item of the profiled crate and the time spent on it.
#[derive(Debug, Clone, PartialEq, Eq)]
pub struct ItemHotspot {
    pub item: String,
    pub total_us: u64,
    pub query_breakdown: Vec<DurationCount>,
    pub semantic_breakdown: Vec<DurationCount>,
    pub domain_breakdown: Vec<DurationCount>,
}

/// What a chrome profiler trace shows.
#[derive(Debug, Clone, PartialEq, Eq)]
pub struct ChromeProfileAnalysis {
    pub event_count: u64,
    pub total_duration_us: u64,
    pub category_breakdown: Vec<DurationCount>,
    pub thread_breakdown: Vec<DurationCount>,
    pub query_hotspots: Vec<QueryHotspot>,
    pub semantic_hotspots: Vec<DurationCount>,
    pub domain_hotspots: Vec<DurationCount>,
    pub item_hotspots: Vec<ItemHotspot>,
    pub longest_events: Vec<ChromeLongestEvent>,
}

/// A query of a self-profile summary.
#[derive(Debug, Clone, PartialEq, Eq)]
pub struct SelfProfileQueryStat {
    pub label: String,
    pub total_us: u64,
    pub self_us: u64,
    pub invocation_count: u64,
    pub cache_hits: u64,
    pub cache_misses: u64,
}

/// The size of a build artifact.
#[derive(Debug, Clone, PartialEq, Eq)]
pub struct ArtifactSize {
    pub label: String,
    pub bytes: u64,
}

/// What a self-profile summary shows.
#[derive(Debug, Clone, PartialEq, Eq)]
pub struct SelfProfileSummaryAnalysis {
    pub total_time_us: u64,
    pub top_self_time: Vec<SelfProfileQueryStat>,
    pub top_total_time: Vec<SelfProfileQueryStat>,
    pub artifacts: Vec<ArtifactSize>,
}

/// The analyses of a profiled build and the findings drawn from them.
#[derive(Debug, Clone, PartialEq, Eq)]
pub struct CargoProfileAnalysis {
    pub chrome: Option<ChromeProfileAnalysis>,
    pub self_profile: Option<SelfProfileSummaryAnalysis>,
    pub findings: Vec<String>,
}

/// Analyses the profiles of a build.
#[derive(Debug)]
pub struct CargoProfileAnalyzer;

/// The summary `analyze_paths` reads: the summary file where one is given, else the summary of
/// the self-profile.
pub open spec fn chosen_summary(summarize_json: Option<SummarizeJson>, self_profile_summary: Option<SummarizeJson>) -> Option<SummarizeJson> {
    match summarize_json {
        Some(s) => Some(s),
        None => self_profile_summary,
    }
}

pub open spec fn deref_opt<T>(o: Option<&T>) -> Option<T> {
    match o {
        Some(x) => Some(*x),
        None => None,
    }
}

impl CargoProfileAnalyzer {
    pub fn new() -> (r: Self) {
        CargoProfileAnalyzer
    }

    /// The analysis of a chrome trace's events; `None` where their durations overflow a `u64`
    /// or a query's example cannot be shortened on a character boundary.
    pub fn analyze_chrome_events(&self, events: &Vec<ChromeEvent>, top: usize) -> (r: Option<ChromeProfileAnalysis>)
        ensures
            r is None <==> (total_of(events@) > u64::MAX || !examples_compactable(queries_after(events@))),
            r matches Some(a) ==> is_chrome_analysis(a, events@, top as nat),
    {
        crate::chrome::analyze_chrome_events(events, top)
    }

    /// The analysis of a self-profile summary; `None` where one of its durations overflows a
    /// `u64` in microseconds.
    pub fn analyze_summarize_json(&self, summary: &SummarizeJson, top: usize) -> (r: Option<SelfProfileSummaryAnalysis>)
        ensures
            r is None <==> !summary_fits(*summary),
            r matches Some(a) ==> is_summary_analysis(a, *summary, top as nat),
    {
        if summary.fits() {
            Some(summary.finish(top))
        } else {
            None
        }
    }

    /// The analyses of a chrome trace and of a self-profile summary, where given, and the
    /// findings drawn from them. The summary file, where given, is read in place of the
    /// self-profile's summary.
    pub fn analyze_paths(
        &self,
        chrome_profiler_json: Option<&Vec<ChromeEvent>>,
        summarize_json: Option<&SummarizeJson>,
        self_profile_summary: Option<&SummarizeJson>,
        top: usize,
    ) -> (r: Option<CargoProfileAnalysis>)
        ensures
            r is None <==> (match chrome_profiler_json {
                Some(es) => total_of(es@) > u64::MAX || !examples_compactable(queries_after(es@)),
                None => false,
            } || match chosen_summary(deref_opt(summarize_json), deref_opt(self_profile_summary)) {
                Some(s) => !summary_fits(s),
                None => false,
            }),
            r matches Some(a) ==> {
                &&& match chrome_profiler_json {
                    Some(es) => a.chrome matches Some(c) && is_chrome_analysis(c, es@, top as nat),
                    None => a.chrome is None,
                }
                &&& match chosen_summary(deref_opt(summarize_json), deref_opt(self_profile_summary)) {
                    Some(s) => a.self_profile matches Some(x) && is_summary_analysis(x, s, top as nat),
                    None => a.self_profile is None,
                }
                &&& texts(a.findings@) == findings_spec(a.chrome, a.self_profile)
            },
    {
        let chrome = match chrome_profiler_json {
            Some(events) => match self.analyze_chrome_events(events, top) {
                Some(c) => Some(c),
                None => return None,
            },
            None => None,
        };
        let summary = match summarize_json {
            Some(s) => Some(s),
            None => self_profile_summary,
        };
        let self_profile = match summary {
            Some(s) => match self.analyze_summarize_json(s, top) {
                Some(x) => Some(x),
                None => return None,
            },
            None => None,
        };
        let findings = infer_findings(chrome.as_ref(), self_profile.as_ref());
        Some(CargoProfileAnalysis { chrome, self_profile, findings })
    }
}

// ---------------------------------------------------------------------------
// Findings
// ---------------------------------------------------------------------------

/// The position of the first query labelled `label`.
pub open spec fn first_labelled(qs: Seq<SelfProfileQueryStat>, label: Seq<char>) -> Option<int>
    decreases qs.len(),
{
    if qs.len() == 0 {
        None
    } else {
        match first_labelled(qs.drop_last(), label) {
            Some(i) => Some(i),
            None => if qs.last().label@ == label {
                Some(qs.len() - 1)
            } else {
                None
            },
        }
    }
}

pub open spec fn ms(us: u64) -> Seq<char> {
    decimal((us / 1000) as nat)
}

/// The findings on a self-profile: its dominant query by self time, and the cache record of
/// `evaluate_obligation` when it is among the top queries.
pub open spec fn self_profile_findings(s: SelfProfileSummaryAnalysis) -> Seq<Seq<char>> {
    let top = s.top_self_time@;
    (if top.len() > 0 {
        seq!["self-profile self time is dominated by `"@ + top[0].label@ + "` ("@ + ms(top[0].self_us) + " ms self)"@]
    } else {
        Seq::empty()
    }) + match first_labelled(top, "evaluate_obligation"@) {
        Some(i) => seq![
            "`evaluate_obligation` has "@ + decimal(top[i].invocation_count as nat) + " invocations with "@ + decimal(
                top[i].cache_hits as nat,
            ) + " cache hits and "@ + decimal(top[i].cache_misses as nat) + " cache misses"@,
        ],
        None => Seq::empty(),
    }
}

/// The findings on a chrome trace: its top item, semantic signal and domain, where present.
pub open spec fn chrome_findings(c: ChromeProfileAnalysis) -> Seq<Seq<char>> {
    (if c.item_hotspots@.len() > 0 {
        seq![
            "chrome trace hotspot is `"@ + c.item_hotspots@[0].item@ + "` ("@ + ms(c.item_hotspots@[0].total_us)
                + " ms inclusive)"@,
        ]
    } else {
        Seq::empty()
    }) + (if c.semantic_hotspots@.len() > 0 {
        seq![
            "dominant reconstructed semantic signal is `"@ + c.semantic_hotspots@[0].label@ + "` ("@ + ms(
                c.semantic_hotspots@[0].total_us,
            ) + " ms)"@,
        ]
    } else {
        Seq::empty()
    }) + (if c.domain_hotspots@.len() > 0 {
        seq![
            "dominant domain-shaped payload is `"@ + c.domain_hotspots@[0].label@ + "` ("@ + ms(
                c.domain_hotspots@[0].total_us,
            ) + " ms)"@,
        ]
    } else {
        Seq::empty()
    })
}

pub open spec fn findings_spec(chrome: Option<ChromeProfileAnalysis>, self_profile: Option<SelfProfileSummaryAnalysis>) -> Seq<Seq<char>> {
    (match self_profile {
        Some(s) => self_profile_findings(s),
        None => Seq::empty(),
    }) + match chrome {
        Some(c) => chrome_findings(c),
        None => Seq::empty(),
    }
}

fn push_text_line(lines: &mut Vec<String>, line: String)
    ensures
        texts(final(lines)@) == texts(old(lines)@).push(line@),
{
    let ghost before = lines@;
    lines.push(line);
    assert(texts(lines@) =~= texts(before).push(line@));
}

fn push_ms(out: &mut String, us: u64)
    ensures
        final(out)@ == old(out)@ + ms(us),
{
    let t = u64_text(us / 1000);
    push_str(out, t.as_str());
}

fn push_num(out: &mut String, n: u64)
    ensures
        final(out)@ == old(out)@ + decimal(n as nat),
{
    let t = u64_text(n);
    push_str(out, t.as_str());
}

/// The findings drawn from the analyses: see [`findings_spec`].
pub fn infer_findings(chrome: Option<&ChromeProfileAnalysis>, self_profile: Option<&SelfProfileSummaryAnalysis>) -> (r: Vec<String>)
    ensures
        texts(r@) == findings_spec(
            match chrome {
                Some(c) => Some(*c),
                None => None,
            },
            match self_profile {
                Some(s) => Some(*s),
                None => None,
            },
        ),
{
    let mut findings: Vec<String> = Vec::new();
    assert(texts(findings@) =~= Seq::<Seq<char>>::empty());
    if let Some(summary) = self_profile {
        let ghost start = texts(findings@);
        if summary.top_self_time.len() > 0 {
            let q = &summary.top_self_time[0];
            let mut line = String::new();
            push_str(&mut line, "self-profile self time is dominated by `");
            push_str(&mut line, q.label.as_str());
            push_str(&mut line, "` (");
            push_ms(&mut line, q.self_us);
            push_str(&mut line, " ms self)");
            push_text_line(&mut findings, line);
        }
        let ghost mid = texts(findings@);
        let found = find_labelled(&summary.top_self_time, "evaluate_obligation");
        if let Some(i) = found {
            let q = &summary.top_self_time[i];
            let mut line = String::new();
            push_str(&mut line, "`evaluate_obligation` has ");
            push_num(&mut line, q.invocation_count);
            push_str(&mut line, " invocations with ");
            push_num(&mut line, q.cache_hits);
            push_str(&mut line, " cache hits and ");
            push_num(&mut line, q.cache_misses);
            push_str(&mut line, " cache misses");
            push_text_line(&mut findings, line);
        }
        assert(texts(findings@) =~= start + self_profile_findings(*summary));
    }
    let ghost after_self = texts(findings@);
    if let Some(c) = chrome {
        if c.item_hotspots.len() > 0 {
            let e = &c.item_hotspots[0];
            let mut line = String::new();
            push_str(&mut line, "chrome trace hotspot is `");
            push_str(&mut line, e.item.as_str());
            push_str(&mut line, "` (");
            push_ms(&mut line, e.total_us);
            push_str(&mut line, " ms inclusive)");
            push_text_line(&mut findings, line);
        }
        if c.semantic_hotspots.len() > 0 {
            let e = &c.semantic_hotspots[0];
            let mut line = String::new();
            push_str(&mut line, "dominant reconstructed semantic signal is `");
            push_str(&mut line, e.label.as_str());
            push_str(&mut line, "` (");
            push_ms(&mut line, e.total_us);
            push_str(&mut line, " ms)");
            push_text_line(&mut findings, line);
        }
        if c.domain_hotspots.len() > 0 {
            let e = &c.domain_hotspots[0];
            let mut line = String::new();
            push_str(&mut line, "dominant domain-shaped payload is `");
            push_str(&mut line, e.label.as_str());
            push_str(&mut line, "` (");
            push_ms(&mut line, e.total_us);
            push_str(&mut line, " ms)");
            push_text_line(&mut findings, line);
        }
        assert(texts(findings@) =~= after_self + chrome_findings(*c));
    }
    findings
}

fn find_labelled(qs: &Vec<SelfProfileQueryStat>, label: &str) -> (r: Option<usize>)
    ensures
        match r {
            Some(i) => first_labelled(qs@, label@) == Some(i as int) && i < qs.len(),
            None => first_labelled(qs@, label@) is None,
        },
{
    let mut k: usize = 0;
    assert(qs@.take(0) =~= Seq::<SelfProfileQueryStat>::empty());
    while k < qs.len()
        invariant
            k <= qs.len(),
            first_labelled(qs@.take(k as int), label@) is None,
        decreases qs.len() - k,
    {
        assert(qs@.take(k + 1).drop_last() =~= qs@.take(k as int));
        if crate::text::str_eq(qs[k].label.as_str(), label) {
            proof {
                lemma_first_labelled_prefix(qs@, label@, k as int);
            }
            return Some(k);
        }
        k += 1;
    }
    assert(qs@.take(qs.len() as int) =~= qs@);
    None
}

proof fn lemma_first_labelled_prefix(qs: Seq<SelfProfileQueryStat>, label: Seq<char>, k: int)
    requires
        0 <= k < qs.len(),
        first_labelled(qs.take(k), label) is None,
        qs[k].label@ == label,
    ensures
        first_labelled(qs, label) == Some(k),
    decreases qs.len() - k,
{
    if k == qs.len() - 1 {
        assert(qs.drop_last() =~= qs.take(k));
    } else {
        assert(qs.drop_last().take(k) =~= qs.take(k));
        lemma_first_labelled_prefix(qs.drop_last(), label, k);
    }
}


// ---------------------------------------------------------------------------
// The text report
// ---------------------------------------------------------------------------

/// A heading followed by its lines, or nothing when there are no lines.
pub open spec fn section(heading: Seq<char>, lines: Seq<Seq<char>>) -> Seq<Seq<char>> {
    if lines.len() == 0 {
        Seq::empty()
    } else {
        seq![heading] + lines
    }
}

pub open spec fn finding_line(f: String) -> Seq<char> {
    "- "@ + f@
}

pub open spec fn query_stat_line(q: SelfProfileQueryStat) -> Seq<char> {
    "- "@ + q.label@ + " self_us="@ + decimal(q.self_us as nat) + " total_us="@ + decimal(q.total_us as nat)
        + " invocations="@ + decimal(q.invocation_count as nat) + " cache_hits="@ + decimal(q.cache_hits as nat)
        + " cache_misses="@ + decimal(q.cache_misses as nat)
}

pub open spec fn artifact_line(a: ArtifactSize) -> Seq<char> {
    "- "@ + a.label@ + " bytes="@ + decimal(a.bytes as nat)
}

pub open spec fn count_line(e: DurationCount) -> Seq<char> {
    "- "@ + e.label@ + " total_us="@ + decimal(e.total_us as nat) + " count="@ + decimal(e.count as nat)
}

pub open spec fn semantic_labels(ks: Seq<CargoProfileSemanticKind>) -> Seq<Seq<char>> {
    ks.map_values(|k: CargoProfileSemanticKind| semantic_kind_label(k))
}

pub open spec fn domain_labels(ks: Seq<CargoProfileDomainKind>) -> Seq<Seq<char>> {
    ks.map_values(|k: CargoProfileDomainKind| domain_kind_label(k))
}

pub open spec fn hotspot_line(e: QueryHotspot) -> Seq<char> {
    "- "@ + e.name@ + " total_us="@ + decimal(e.total_us as nat) + " count="@ + decimal(e.count as nat) + " max_us="@
        + decimal(e.max_us as nat) + " semantics=["@ + join_seq(semantic_labels(e.semantic_kinds@), ","@)
        + "] domains=["@ + join_seq(domain_labels(e.domain_kinds@), ","@) + "] arg0="@ + match e.example_arg0 {
        Some(a) => a@,
        None => "<none>"@,
    }
}

/// The label of the first entry, or `<none>`.
pub open spec fn first_label(v: Seq<DurationCount>) -> Seq<char> {
    if v.len() > 0 {
        v[0].label@
    } else {
        "<none>"@
    }
}

pub open spec fn item_line(e: ItemHotspot) -> Seq<char> {
    "- "@ + e.item@ + " total_us="@ + decimal(e.total_us as nat) + " dominant_query="@ + first_label(e.query_breakdown@)
        + " dominant_semantic="@ + first_label(e.semantic_breakdown@) + " dominant_domain="@ + first_label(
        e.domain_breakdown@,
    )
}

pub open spec fn self_profile_lines(sp: Option<SelfProfileSummaryAnalysis>) -> Seq<Seq<char>> {
    match sp {
        None => Seq::empty(),
        Some(s) => seq!["self_profile.total_time_us="@ + decimal(s.total_time_us as nat)] + section(
            "self_profile.top_self_time:"@,
            s.top_self_time@.map_values(|q: SelfProfileQueryStat| query_stat_line(q)),
        ) + section("self_profile.artifacts:"@, s.artifacts@.map_values(|a: ArtifactSize| artifact_line(a))),
    }
}

pub open spec fn chrome_lines(c: Option<ChromeProfileAnalysis>) -> Seq<Seq<char>> {
    match c {
        None => Seq::empty(),
        Some(c) => seq![
            "chrome.event_count="@ + decimal(c.event_count as nat),
            "chrome.total_duration_us="@ + decimal(c.total_duration_us as nat),
        ] + section("chrome.categories:"@, c.category_breakdown@.map_values(|e: DurationCount| count_line(e))) + section(
            "chrome.semantic_hotspots:"@,
            c.semantic_hotspots@.map_values(|e: DurationCount| count_line(e)),
        ) + section("chrome.domain_hotspots:"@, c.domain_hotspots@.map_values(|e: DurationCount| count_line(e)))
            + section("chrome.query_hotspots:"@, c.query_hotspots@.map_values(|e: QueryHotspot| hotspot_line(e)))
            + section("chrome.item_hotspots:"@, c.item_hotspots@.map_values(|e: ItemHotspot| item_line(e))),
    }
}

/// The lines of the text report: the findings, then the self-profile, then the chrome trace.
pub open spec fn report_lines(a: CargoProfileAnalysis) -> Seq<Seq<char>> {
    section("findings:"@, a.findings@.map_values(|f: String| finding_line(f))) + self_profile_lines(a.self_profile)
        + chrome_lines(a.chrome)
}

fn push_section_heading(lines: &mut Vec<String>, heading: &str, nonempty: bool)
    ensures
        texts(final(lines)@) == texts(old(lines)@) + if nonempty {
            seq![heading@]
        } else {
            Seq::empty()
        },
{
    let ghost before = texts(lines@);
    if nonempty {
        push_text_line(lines, crate::text::copy_str(heading));
    }
    assert(texts(lines@) =~= before + if nonempty {
        seq![heading@]
    } else {
        Seq::empty()
    });
}

fn push_count_lines(lines: &mut Vec<String>, heading: &str, entries: &Vec<DurationCount>)
    ensures
        texts(final(lines)@) == texts(old(lines)@) + section(heading@, entries@.map_values(|e: DurationCount| count_line(e))),
{
    let ghost start = texts(lines@);
    let ghost all = entries@.map_values(|e: DurationCount| count_line(e));
    push_section_heading(lines, heading, entries.len() > 0);
    let ghost head = texts(lines@);
    let mut i: usize = 0;
    while i < entries.len()
        invariant
            i <= entries.len(),
            all == entries@.map_values(|e: DurationCount| count_line(e)),
            texts(lines@) == head + all.take(i as int),
        decreases entries.len() - i,
    {
        let e = &entries[i];
        let mut line = crate::text::copy_str("- ");
        push_str(&mut line, e.label.as_str());
        push_str(&mut line, " total_us=");
        push_num(&mut line, e.total_us);
        push_str(&mut line, " count=");
        push_num(&mut line, e.count);
        assert(line@ =~= count_line(*e));
        push_text_line(lines, line);
        assert(all.take(i + 1) =~= all.take(i as int).push(all[i as int]));
        i += 1;
    }
    assert(all.take(entries.len() as int) =~= all);
    assert(texts(lines@) =~= start + section(heading@, all));
}

fn kind_labels(ks: &Vec<CargoProfileSemanticKind>) -> (r: String)
    ensures
        r@ == join_seq(semantic_labels(ks@), ","@),
{
    let mut parts: Vec<String> = Vec::new();
    let mut i: usize = 0;
    while i < ks.len()
        invariant
            i <= ks.len(),
            texts(parts@) == semantic_labels(ks@).take(i as int),
        decreases ks.len() - i,
    {
        push_text_line(&mut parts, crate::text::copy_str(ks[i].label()));
        assert(semantic_labels(ks@).take(i + 1) =~= semantic_labels(ks@).take(i as int).push(semantic_kind_label(ks@[i as int])));
        i += 1;
    }
    assert(semantic_labels(ks@).take(ks.len() as int) =~= semantic_labels(ks@));
    join(&parts, ",")
}

fn domain_kind_labels(ks: &Vec<CargoProfileDomainKind>) -> (r: String)
    ensures
        r@ == join_seq(domain_labels(ks@), ","@),
{
    let mut parts: Vec<String> = Vec::new();
    let mut i: usize = 0;
    while i < ks.len()
        invariant
            i <= ks.len(),
            texts(parts@) == domain_labels(ks@).take(i as int),
        decreases ks.len() - i,
    {
        push_text_line(&mut parts, crate::text::copy_str(ks[i].label()));
        assert(domain_labels(ks@).take(i + 1) =~= domain_labels(ks@).take(i as int).push(domain_kind_label(ks@[i as int])));
        i += 1;
    }
    assert(domain_labels(ks@).take(ks.len() as int) =~= domain_labels(ks@));
    join(&parts, ",")
}

fn first_label_of(v: &Vec<DurationCount>) -> (r: String)
    ensures
        r@ == first_label(v@),
{
    if v.len() > 0 {
        v[0].label.clone()
    } else {
        crate::text::copy_str("<none>")
    }
}

fn push_self_profile_lines(lines: &mut Vec<String>, s: &SelfProfileSummaryAnalysis)
    ensures
        texts(final(lines)@) == texts(old(lines)@) + self_profile_lines(Some(*s)),
{
    let ghost start = texts(lines@);
    let mut head = crate::text::copy_str("self_profile.total_time_us=");
    push_num(&mut head, s.total_time_us);
    push_text_line(lines, head);
    let ghost a = texts(lines@);
    let ghost qs = s.top_self_time@.map_values(|q: SelfProfileQueryStat| query_stat_line(q));
    push_section_heading(lines, "self_profile.top_self_time:", s.top_self_time.len() > 0);
    let ghost b = texts(lines@);
    let mut i: usize = 0;
    while i < s.top_self_time.len()
        invariant
            i <= s.top_self_time.len(),
            qs == s.top_self_time@.map_values(|q: SelfProfileQueryStat| query_stat_line(q)),
            texts(lines@) == b + qs.take(i as int),
        decreases s.top_self_time.len() - i,
    {
        let q = &s.top_self_time[i];
        let mut line = crate::text::copy_str("- ");
        push_str(&mut line, q.label.as_str());
        push_str(&mut line, " self_us=");
        push_num(&mut line, q.self_us);
        push_str(&mut line, " total_us=");
        push_num(&mut line, q.total_us);
        push_str(&mut line, " invocations=");
        push_num(&mut line, q.invocation_count);
        push_str(&mut line, " cache_hits=");
        push_num(&mut line, q.cache_hits);
        push_str(&mut line, " cache_misses=");
        push_num(&mut line, q.cache_misses);
        assert(line@ =~= query_stat_line(*q));
        push_text_line(lines, line);
        assert(qs.take(i + 1) =~= qs.take(i as int).push(qs[i as int]));
        i += 1;
    }
    assert(qs.take(s.top_self_time.len() as int) =~= qs);
    assert(texts(lines@) =~= a + section("self_profile.top_self_time:"@, qs));
    let ghost c = texts(lines@);
    let ghost arts = s.artifacts@.map_values(|x: ArtifactSize| artifact_line(x));
    push_section_heading(lines, "self_profile.artifacts:", s.artifacts.len() > 0);
    let ghost d = texts(lines@);
    let mut j: usize = 0;
    while j < s.artifacts.len()
        invariant
            j <= s.artifacts.len(),
            arts == s.artifacts@.map_values(|x: ArtifactSize| artifact_line(x)),
            texts(lines@) == d + arts.take(j as int),
        decreases s.artifacts.len() - j,
    {
        let x = &s.artifacts[j];
        let mut line = crate::text::copy_str("- ");
        push_str(&mut line, x.label.as_str());
        push_str(&mut line, " bytes=");
        push_num(&mut line, x.bytes);
        assert(line@ =~= artifact_line(*x));
        push_text_line(lines, line);
        assert(arts.take(j + 1) =~= arts.take(j as int).push(arts[j as int]));
        j += 1;
    }
    assert(arts.take(s.artifacts.len() as int) =~= arts);
    assert(texts(lines@) =~= c + section("self_profile.artifacts:"@, arts));
    assert(texts(lines@) =~= start + self_profile_lines(Some(*s)));
}

fn push_chrome_lines(lines: &mut Vec<String>, c: &ChromeProfileAnalysis)
    ensures
        texts(final(lines)@) == texts(old(lines)@) + chrome_lines(Some(*c)),
{
    let ghost start = texts(lines@);
    let mut l1 = crate::text::copy_str("chrome.event_count=");
    push_num(&mut l1, c.event_count);
    push_text_line(lines, l1);
    let mut l2 = crate::text::copy_str("chrome.total_duration_us=");
    push_num(&mut l2, c.total_duration_us);
    push_text_line(lines, l2);
    push_count_lines(lines, "chrome.categories:", &c.category_breakdown);
    push_count_lines(lines, "chrome.semantic_hotspots:", &c.semantic_hotspots);
    push_count_lines(lines, "chrome.domain_hotspots:", &c.domain_hotspots);
    let ghost a = texts(lines@);
    let ghost hs = c.query_hotspots@.map_values(|e: QueryHotspot| hotspot_line(e));
    push_section_heading(lines, "chrome.query_hotspots:", c.query_hotspots.len() > 0);
    let ghost b = texts(lines@);
    let mut i: usize = 0;
    while i < c.query_hotspots.len()
        invariant
            i <= c.query_hotspots.len(),
            hs == c.query_hotspots@.map_values(|e: QueryHotspot| hotspot_line(e)),
            texts(lines@) == b + hs.take(i as int),
        decreases c.query_hotspots.len() - i,
    {
        let e = &c.query_hotspots[i];
        let mut line = crate::text::copy_str("- ");
        push_str(&mut line, e.name.as_str());
        push_str(&mut line, " total_us=");
        push_num(&mut line, e.total_us);
        push_str(&mut line, " count=");
        push_num(&mut line, e.count);
        push_str(&mut line, " max_us=");
        push_num(&mut line, e.max_us);
        push_str(&mut line, " semantics=[");
        let sem = kind_labels(&e.semantic_kinds);
        push_str(&mut line, sem.as_str());
        push_str(&mut line, "] domains=[");
        let dom = domain_kind_labels(&e.domain_kinds);
        push_str(&mut line, dom.as_str());
        push_str(&mut line, "] arg0=");
        match &e.example_arg0 {
            Some(a) => push_str(&mut line, a.as_str()),
            None => push_str(&mut line, "<none>"),
        }
        assert(line@ =~= hotspot_line(*e));
        push_text_line(lines, line);
        assert(hs.take(i + 1) =~= hs.take(i as int).push(hs[i as int]));
        i += 1;
    }
    assert(hs.take(c.query_hotspots.len() as int) =~= hs);
    assert(texts(lines@) =~= a + section("chrome.query_hotspots:"@, hs));
    let ghost d = texts(lines@);
    let ghost its = c.item_hotspots@.map_values(|e: ItemHotspot| item_line(e));
    push_section_heading(lines, "chrome.item_hotspots:", c.item_hotspots.len() > 0);
    let ghost f = texts(lines@);
    let mut j: usize = 0;
    while j < c.item_hotspots.len()
        invariant
            j <= c.item_hotspots.len(),
            its == c.item_hotspots@.map_values(|e: ItemHotspot| item_line(e)),
            texts(lines@) == f + its.take(j as int),
        decreases c.item_hotspots.len() - j,
    {
        let e = &c.item_hotspots[j];
        let mut line = crate::text::copy_str("- ");
        push_str(&mut line, e.item.as_str());
        push_str(&mut line, " total_us=");
        push_num(&mut line, e.total_us);
        push_str(&mut line, " dominant_query=");
        let q = first_label_of(&e.query_breakdown);
        push_str(&mut line, q.as_str());
        push_str(&mut line, " dominant_semantic=");
        let sm = first_label_of(&e.semantic_breakdown);
        push_str(&mut line, sm.as_str());
        push_str(&mut line, " dominant_domain=");
        let dm = first_label_of(&e.domain_breakdown);
        push_str(&mut line, dm.as_str());
        assert(line@ =~= item_line(*e));
        push_text_line(lines, line);
        assert(its.take(j + 1) =~= its.take(j as int).push(its[j as int]));
        j += 1;
    }
    assert(its.take(c.item_hotspots.len() as int) =~= its);
    assert(texts(lines@) =~= d + section("chrome.item_hotspots:"@, its));
    assert(texts(lines@) =~= start + chrome_lines(Some(*c)));
}

/// The text report of an analysis: [`report_lines`] joined by newlines.
pub fn render_text(analysis: &CargoProfileAnalysis) -> (r: String)
    ensures
        r@ == join_seq(report_lines(*analysis), "\n"@),
{
    let mut lines: Vec<String> = Vec::new();
    assert(texts(lines@) =~= Seq::<Seq<char>>::empty());
    let ghost fs = analysis.findings@.map_values(|f: String| finding_line(f));
    push_section_heading(&mut lines, "findings:", analysis.findings.len() > 0);
    let ghost b = texts(lines@);
    let mut i: usize = 0;
    while i < analysis.findings.len()
        invariant
            i <= analysis.findings.len(),
            fs == analysis.findings@.map_values(|f: String| finding_line(f)),
            texts(lines@) == b + fs.take(i as int),
        decreases analysis.findings.len() - i,
    {
        let mut line = crate::text::copy_str("- ");
        push_str(&mut line, analysis.findings[i].as_str());
        push_text_line(&mut lines, line);
        assert(fs.take(i + 1) =~= fs.take(i as int).push(fs[i as int]));
        i += 1;
    }
    assert(fs.take(analysis.findings.len() as int) =~= fs);
    assert(texts(lines@) =~= section("findings:"@, fs));
    let ghost a = texts(lines@);
    if let Some(s) = &analysis.self_profile {
        push_self_profile_lines(&mut lines, s);
    }
    assert(texts(lines@) =~= a + self_profile_lines(analysis.self_profile));
    let ghost c = texts(lines@);
    if let Some(ch) = &analysis.chrome {
        push_chrome_lines(&mut lines, ch);
    }
    assert(texts(lines@) =~= c + chrome_lines(analysis.chrome));
    assert(texts(lines@) =~= report_lines(*analysis));
    join(&lines, "\n")
}


// ---------------------------------------------------------------------------
// Reading queries and their arguments
// ---------------------------------------------------------------------------

/// The kind of a query, by its exact name.
pub open spec fn semantic_kind_of(q: Seq<char>) -> CargoProfileSemanticKind {
    if q == "typeck"@ || q == "analysis"@ {
        CargoProfileSemanticKind::TypeCheck
    } else if q == "check_match"@ {
        CargoProfileSemanticKind::Branching
    } else if q == "evaluate_obligation"@ {
        CargoProfileSemanticKind::ConstraintSolve
    } else if q == "eval_to_const_value_raw"@ || q == "eval_to_allocation_raw"@ || q == "trivial_const"@ {
        CargoProfileSemanticKind::ConstEval
    } else if q == "mir_built"@ || q == "mir_for_ctfe"@ || q == "mir_drops_elaborated_and_const_checked"@ || q
        == "mir_borrowck"@ || q == "mir_promoted"@ {
        CargoProfileSemanticKind::MirBuild
    } else if q == "type_op_ascribe_user_type"@ {
        CargoProfileSemanticKind::TypeAscription
    } else if q == "check_type_wf"@ || q == "check_well_formed"@ || q == "predicates_of"@ {
        CargoProfileSemanticKind::WellFormedness
    } else if q == "resolve_instance_raw"@ {
        CargoProfileSemanticKind::InstanceResolution
    } else if q == "layout_of"@ {
        CargoProfileSemanticKind::Layout
    } else if q == "collect_and_partition_mono_items"@ || q == "monomorphization_collector"@ || q
        == "monomorphization_collector_graph_walk"@ {
        CargoProfileSemanticKind::Monomorphization
    } else if q == "link"@ || q == "link_crate"@ || q == "link_binary"@ || q == "run_linker"@ {
        CargoProfileSemanticKind::Linking
    } else {
        CargoProfileSemanticKind::Unknown
    }
}

/// The query names of each semantic kind; an unknown kind has none.
pub open spec fn kind_names(k: CargoProfileSemanticKind) -> Seq<Seq<char>> {
    match k {
        CargoProfileSemanticKind::TypeCheck => seq!["typeck"@, "analysis"@],
        CargoProfileSemanticKind::Branching => seq!["check_match"@],
        CargoProfileSemanticKind::ConstraintSolve => seq!["evaluate_obligation"@],
        CargoProfileSemanticKind::ConstEval => seq!["eval_to_const_value_raw"@, "eval_to_allocation_raw"@, "trivial_const"@],
        CargoProfileSemanticKind::MirBuild => seq!["mir_built"@, "mir_for_ctfe"@, "mir_drops_elaborated_and_const_checked"@, "mir_borrowck"@, "mir_promoted"@],
        CargoProfileSemanticKind::TypeAscription => seq!["type_op_ascribe_user_type"@],
        CargoProfileSemanticKind::WellFormedness => seq!["check_type_wf"@, "check_well_formed"@, "predicates_of"@],
        CargoProfileSemanticKind::InstanceResolution => seq!["resolve_instance_raw"@],
        CargoProfileSemanticKind::Layout => seq!["layout_of"@],
        CargoProfileSemanticKind::Monomorphization => seq!["collect_and_partition_mono_items"@, "monomorphization_collector"@, "monomorphization_collector_graph_walk"@],
        CargoProfileSemanticKind::Linking => seq!["link"@, "link_crate"@, "link_binary"@, "run_linker"@],
        CargoProfileSemanticKind::Unknown => Seq::empty(),
    }
}

proof fn lemma_names_differ()
    ensures
        "check_match"@ != "link_binary"@,
        "trivial_const"@ != "check_type_wf"@,
        "trivial_const"@ != "predicates_of"@,
        "mir_built"@ != "layout_of"@,
{
    reveal_strlit("typeck");
    reveal_strlit("analysis");
    reveal_strlit("check_match");
    reveal_strlit("evaluate_obligation");
    reveal_strlit("eval_to_const_value_raw");
    reveal_strlit("eval_to_allocation_raw");
    reveal_strlit("trivial_const");
    reveal_strlit("mir_built");
    reveal_strlit("mir_for_ctfe");
    reveal_strlit("mir_drops_elaborated_and_const_checked");
    reveal_strlit("mir_borrowck");
    reveal_strlit("mir_promoted");
    reveal_strlit("type_op_ascribe_user_type");
    reveal_strlit("check_type_wf");
    reveal_strlit("check_well_formed");
    reveal_strlit("predicates_of");
    reveal_strlit("resolve_instance_raw");
    reveal_strlit("layout_of");
    reveal_strlit("collect_and_partition_mono_items");
    reveal_strlit("monomorphization_collector");
    reveal_strlit("monomorphization_collector_graph_walk");
    reveal_strlit("link");
    reveal_strlit("link_crate");
    reveal_strlit("link_binary");
    reveal_strlit("run_linker");
    assert("check_match"@[0] != "link_binary"@[0]);
    assert("trivial_const"@[0] != "check_type_wf"@[0]);
    assert("trivial_const"@[0] != "predicates_of"@[0]);
    assert("mir_built"@[0] != "layout_of"@[0]);
}

proof fn lemma_names_of_typecheck(q: Seq<char>)
    requires
        kind_names(CargoProfileSemanticKind::TypeCheck).contains(q),
    ensures
        semantic_kind_of(q) == CargoProfileSemanticKind::TypeCheck,
{
    reveal_strlit("typeck");
    reveal_strlit("analysis");
    reveal_strlit("check_match");
    reveal_strlit("evaluate_obligation");
    reveal_strlit("eval_to_const_value_raw");
    reveal_strlit("eval_to_allocation_raw");
    reveal_strlit("trivial_const");
    reveal_strlit("mir_built");
    reveal_strlit("mir_for_ctfe");
    reveal_strlit("mir_drops_elaborated_and_const_checked");
    reveal_strlit("mir_borrowck");
    reveal_strlit("mir_promoted");
    reveal_strlit("type_op_ascribe_user_type");
    reveal_strlit("check_type_wf");
    reveal_strlit("check_well_formed");
    reveal_strlit("predicates_of");
    reveal_strlit("resolve_instance_raw");
    reveal_strlit("layout_of");
    reveal_strlit("collect_and_partition_mono_items");
    reveal_strlit("monomorphization_collector");
    reveal_strlit("monomorphization_collector_graph_walk");
    reveal_strlit("link");
    reveal_strlit("link_crate");
    reveal_strlit("link_binary");
    reveal_strlit("run_linker");
    lemma_names_differ();
    let names = kind_names(CargoProfileSemanticKind::TypeCheck);
    let i = choose|i: int| 0 <= i < names.len() && names[i] == q;
    if i == 0 {
        assert(q == "typeck"@);
        assert(q.len() == 6);
    }
    if i == 1 {
        assert(q == "analysis"@);
        assert(q.len() == 8);
    }
}

proof fn lemma_names_of_branching(q: Seq<char>)
    requires
        kind_names(CargoProfileSemanticKind::Branching).contains(q),
    ensures
        semantic_kind_of(q) == CargoProfileSemanticKind::Branching,
{
    reveal_strlit("typeck");
    reveal_strlit("analysis");
    reveal_strlit("check_match");
    reveal_strlit("evaluate_obligation");
    reveal_strlit("eval_to_const_value_raw");
    reveal_strlit("eval_to_allocation_raw");
    reveal_strlit("trivial_const");
    reveal_strlit("mir_built");
    reveal_strlit("mir_for_ctfe");
    reveal_strlit("mir_drops_elaborated_and_const_checked");
    reveal_strlit("mir_borrowck");
    reveal_strlit("mir_promoted");
    reveal_strlit("type_op_ascribe_user_type");
    reveal_strlit("check_type_wf");
    reveal_strlit("check_well_formed");
    reveal_strlit("predicates_of");
    reveal_strlit("resolve_instance_raw");
    reveal_strlit("layout_of");
    reveal_strlit("collect_and_partition_mono_items");
    reveal_strlit("monomorphization_collector");
    reveal_strlit("monomorphization_collector_graph_walk");
    reveal_strlit("link");
    reveal_strlit("link_crate");
    reveal_strlit("link_binary");
    reveal_strlit("run_linker");
    lemma_names_differ();
    let names = kind_names(CargoProfileSemanticKind::Branching);
    let i = choose|i: int| 0 <= i < names.len() && names[i] == q;
    if i == 0 {
        assert(q == "check_match"@);
        assert(q.len() == 11);
    }
}

proof fn lemma_names_of_constraintsolve(q: Seq<char>)
    requires
        kind_names(CargoProfileSemanticKind::ConstraintSolve).contains(q),
    ensures
        semantic_kind_of(q) == CargoProfileSemanticKind::ConstraintSolve,
{
    reveal_strlit("typeck");
    reveal_strlit("analysis");
    reveal_strlit("check_match");
    reveal_strlit("evaluate_obligation");
    reveal_strlit("eval_to_const_value_raw");
    reveal_strlit("eval_to_allocation_raw");
    reveal_strlit("trivial_const");
    reveal_strlit("mir_built");
    reveal_strlit("mir_for_ctfe");
    reveal_strlit("mir_drops_elaborated_and_const_checked");
    reveal_strlit("mir_borrowck");
    reveal_strlit("mir_promoted");
    reveal_strlit("type_op_ascribe_user_type");
    reveal_strlit("check_type_wf");
    reveal_strlit("check_well_formed");
    reveal_strlit("predicates_of");
    reveal_strlit("resolve_instance_raw");
    reveal_strlit("layout_of");
    reveal_strlit("collect_and_partition_mono_items");
    reveal_strlit("monomorphization_collector");
    reveal_strlit("monomorphization_collector_graph_walk");
    reveal_strlit("link");
    reveal_strlit("link_crate");
    reveal_strlit("link_binary");
    reveal_strlit("run_linker");
    lemma_names_differ();
    let names = kind_names(CargoProfileSemanticKind::ConstraintSolve);
    let i = choose|i: int| 0 <= i < names.len() && names[i] == q;
    if i == 0 {
        assert(q == "evaluate_obligation"@);
        assert(q.len() == 19);
    }
}

proof fn lemma_names_of_consteval(q: Seq<char>)
    requires
        kind_names(CargoProfileSemanticKind::ConstEval).contains(q),
    ensures
        semantic_kind_of(q) == CargoProfileSemanticKind::ConstEval,
{
    reveal_strlit("typeck");
    reveal_strlit("analysis");
    reveal_strlit("check_match");
    reveal_strlit("evaluate_obligation");
    reveal_strlit("eval_to_const_value_raw");
    reveal_strlit("eval_to_allocation_raw");
    reveal_strlit("trivial_const");
    reveal_strlit("mir_built");
    reveal_strlit("mir_for_ctfe");
    reveal_strlit("mir_drops_elaborated_and_const_checked");
    reveal_strlit("mir_borrowck");
    reveal_strlit("mir_promoted");
    reveal_strlit("type_op_ascribe_user_type");
    reveal_strlit("check_type_wf");
    reveal_strlit("check_well_formed");
    reveal_strlit("predicates_of");
    reveal_strlit("resolve_instance_raw");
    reveal_strlit("layout_of");
    reveal_strlit("collect_and_partition_mono_items");
    reveal_strlit("monomorphization_collector");
    reveal_strlit("monomorphization_collector_graph_walk");
    reveal_strlit("link");
    reveal_strlit("link_crate");
    reveal_strlit("link_binary");
    reveal_strlit("run_linker");
    lemma_names_differ();
    let names = kind_names(CargoProfileSemanticKind::ConstEval);
    let i = choose|i: int| 0 <= i < names.len() && names[i] == q;
    if i == 0 {
        assert(q == "eval_to_const_value_raw"@);
        assert(q.len() == 23);
    }
    if i == 1 {
        assert(q == "eval_to_allocation_raw"@);
        assert(q.len() == 22);
    }
    if i == 2 {
        assert(q == "trivial_const"@);
        assert(q.len() == 13);
    }
}

proof fn lemma_names_of_mirbuild(q: Seq<char>)
    requires
        kind_names(CargoProfileSemanticKind::MirBuild).contains(q),
    ensures
        semantic_kind_of(q) == CargoProfileSemanticKind::MirBuild,
{
    reveal_strlit("typeck");
    reveal_strlit("analysis");
    reveal_strlit("check_match");
    reveal_strlit("evaluate_obligation");
    reveal_strlit("eval_to_const_value_raw");
    reveal_strlit("eval_to_allocation_raw");
    reveal_strlit("trivial_const");
    reveal_strlit("mir_built");
    reveal_strlit("mir_for_ctfe");
    reveal_strlit("mir_drops_elaborated_and_const_checked");
    reveal_strlit("mir_borrowck");
    reveal_strlit("mir_promoted");
    reveal_strlit("type_op_ascribe_user_type");
    reveal_strlit("check_type_wf");
    reveal_strlit("check_well_formed");
    reveal_strlit("predicates_of");
    reveal_strlit("resolve_instance_raw");
    reveal_strlit("layout_of");
    reveal_strlit("collect_and_partition_mono_items");
    reveal_strlit("monomorphization_collector");
    reveal_strlit("monomorphization_collector_graph_walk");
    reveal_strlit("link");
    reveal_strlit("link_crate");
    reveal_strlit("link_binary");
    reveal_strlit("run_linker");
    lemma_names_differ();
    let names = kind_names(CargoProfileSemanticKind::MirBuild);
    let i = choose|i: int| 0 <= i < names.len() && names[i] == q;
    if i == 0 {
        assert(q == "mir_built"@);
        assert(q.len() == 9);
    }
    if i == 1 {
        assert(q == "mir_for_ctfe"@);
        assert(q.len() == 12);
    }
    if i == 2 {
        assert(q == "mir_drops_elaborated_and_const_checked"@);
        assert(q.len() == 38);
    }
    if i == 3 {
        assert(q == "mir_borrowck"@);
        assert(q.len() == 12);
    }
    if i == 4 {
        assert(q == "mir_promoted"@);
        assert(q.len() == 12);
    }
}

proof fn lemma_names_of_typeascription(q: Seq<char>)
    requires
        kind_names(CargoProfileSemanticKind::TypeAscription).contains(q),
    ensures
        semantic_kind_of(q) == CargoProfileSemanticKind::TypeAscription,
{
    reveal_strlit("typeck");
    reveal_strlit("analysis");
    reveal_strlit("check_match");
    reveal_strlit("evaluate_obligation");
    reveal_strlit("eval_to_const_value_raw");
    reveal_strlit("eval_to_allocation_raw");
    reveal_strlit("trivial_const");
    reveal_strlit("mir_built");
    reveal_strlit("mir_for_ctfe");
    reveal_strlit("mir_drops_elaborated_and_const_checked");
    reveal_strlit("mir_borrowck");
    reveal_strlit("mir_promoted");
    reveal_strlit("type_op_ascribe_user_type");
    reveal_strlit("check_type_wf");
    reveal_strlit("check_well_formed");
    reveal_strlit("predicates_of");
    reveal_strlit("resolve_instance_raw");
    reveal_strlit("layout_of");
    reveal_strlit("collect_and_partition_mono_items");
    reveal_strlit("monomorphization_collector");
    reveal_strlit("monomorphization_collector_graph_walk");
    reveal_strlit("link");
    reveal_strlit("link_crate");
    reveal_strlit("link_binary");
    reveal_strlit("run_linker");
    lemma_names_differ();
    let names = kind_names(CargoProfileSemanticKind::TypeAscription);
    let i = choose|i: int| 0 <= i < names.len() && names[i] == q;
    if i == 0 {
        assert(q == "type_op_ascribe_user_type"@);
        assert(q.len() == 25);
    }
}

proof fn lemma_names_of_wellformedness(q: Seq<char>)
    requires
        kind_names(CargoProfileSemanticKind::WellFormedness).contains(q),
    ensures
        semantic_kind_of(q) == CargoProfileSemanticKind::WellFormedness,
{
    reveal_strlit("typeck");
    reveal_strlit("analysis");
    reveal_strlit("check_match");
    reveal_strlit("evaluate_obligation");
    reveal_strlit("eval_to_const_value_raw");
    reveal_strlit("eval_to_allocation_raw");
    reveal_strlit("trivial_const");
    reveal_strlit("mir_built");
    reveal_strlit("mir_for_ctfe");
    reveal_strlit("mir_drops_elaborated_and_const_checked");
    reveal_strlit("mir_borrowck");
    reveal_strlit("mir_promoted");
    reveal_strlit("type_op_ascribe_user_type");
    reveal_strlit("check_type_wf");
    reveal_strlit("check_well_formed");
    reveal_strlit("predicates_of");
    reveal_strlit("resolve_instance_raw");
    reveal_strlit("layout_of");
    reveal_strlit("collect_and_partition_mono_items");
    reveal_strlit("monomorphization_collector");
    reveal_strlit("monomorphization_collector_graph_walk");
    reveal_strlit("link");
    reveal_strlit("link_crate");
    reveal_strlit("link_binary");
    reveal_strlit("run_linker");
    lemma_names_differ();
    let names = kind_names(CargoProfileSemanticKind::WellFormedness);
    let i = choose|i: int| 0 <= i < names.len() && names[i] == q;
    if i == 0 {
        assert(q == "check_type_wf"@);
        assert(q.len() == 13);
    }
    if i == 1 {
        assert(q == "check_well_formed"@);
        assert(q.len() == 17);
    }
    if i == 2 {
        assert(q == "predicates_of"@);
        assert(q.len() == 13);
    }
}

proof fn lemma_names_of_instanceresolution(q: Seq<char>)
    requires
        kind_names(CargoProfileSemanticKind::InstanceResolution).contains(q),
    ensures
        semantic_kind_of(q) == CargoProfileSemanticKind::InstanceResolution,
{
    reveal_strlit("typeck");
    reveal_strlit("analysis");
    reveal_strlit("check_match");
    reveal_strlit("evaluate_obligation");
    reveal_strlit("eval_to_const_value_raw");
    reveal_strlit("eval_to_allocation_raw");
    reveal_strlit("trivial_const");
    reveal_strlit("mir_built");
    reveal_strlit("mir_for_ctfe");
    reveal_strlit("mir_drops_elaborated_and_const_checked");
    reveal_strlit("mir_borrowck");
    reveal_strlit("mir_promoted");
    reveal_strlit("type_op_ascribe_user_type");
    reveal_strlit("check_type_wf");
    reveal_strlit("check_well_formed");
    reveal_strlit("predicates_of");
    reveal_strlit("resolve_instance_raw");
    reveal_strlit("layout_of");
    reveal_strlit("collect_and_partition_mono_items");
    reveal_strlit("monomorphization_collector");
    reveal_strlit("monomorphization_collector_graph_walk");
    reveal_strlit("link");
    reveal_strlit("link_crate");
    reveal_strlit("link_binary");
    reveal_strlit("run_linker");
    lemma_names_differ();
    let names = kind_names(CargoProfileSemanticKind::InstanceResolution);
    let i = choose|i: int| 0 <= i < names.len() && names[i] == q;
    if i == 0 {
        assert(q == "resolve_instance_raw"@);
        assert(q.len() == 20);
    }
}

proof fn lemma_names_of_layout(q: Seq<char>)
    requires
        kind_names(CargoProfileSemanticKind::Layout).contains(q),
    ensures
        semantic_kind_of(q) == CargoProfileSemanticKind::Layout,
{
    reveal_strlit("typeck");
    reveal_strlit("analysis");
    reveal_strlit("check_match");
    reveal_strlit("evaluate_obligation");
    reveal_strlit("eval_to_const_value_raw");
    reveal_strlit("eval_to_allocation_raw");
    reveal_strlit("trivial_const");
    reveal_strlit("mir_built");
    reveal_strlit("mir_for_ctfe");
    reveal_strlit("mir_drops_elaborated_and_const_checked");
    reveal_strlit("mir_borrowck");
    reveal_strlit("mir_promoted");
    reveal_strlit("type_op_ascribe_user_type");
    reveal_strlit("check_type_wf");
    reveal_strlit("check_well_formed");
    reveal_strlit("predicates_of");
    reveal_strlit("resolve_instance_raw");
    reveal_strlit("layout_of");
    reveal_strlit("collect_and_partition_mono_items");
    reveal_strlit("monomorphization_collector");
    reveal_strlit("monomorphization_collector_graph_walk");
    reveal_strlit("link");
    reveal_strlit("link_crate");
    reveal_strlit("link_binary");
    reveal_strlit("run_linker");
    lemma_names_differ();
    let names = kind_names(CargoProfileSemanticKind::Layout);
    let i = choose|i: int| 0 <= i < names.len() && names[i] == q;
    if i == 0 {
        assert(q == "layout_of"@);
        assert(q.len() == 9);
    }
}

proof fn lemma_names_of_monomorphization(q: Seq<char>)
    requires
        kind_names(CargoProfileSemanticKind::Monomorphization).contains(q),
    ensures
        semantic_kind_of(q) == CargoProfileSemanticKind::Monomorphization,
{
    reveal_strlit("typeck");
    reveal_strlit("analysis");
    reveal_strlit("check_match");
    reveal_strlit("evaluate_obligation");
    reveal_strlit("eval_to_const_value_raw");
    reveal_strlit("eval_to_allocation_raw");
    reveal_strlit("trivial_const");
    reveal_strlit("mir_built");
    reveal_strlit("mir_for_ctfe");
    reveal_strlit("mir_drops_elaborated_and_const_checked");
    reveal_strlit("mir_borrowck");
    reveal_strlit("mir_promoted");
    reveal_strlit("type_op_ascribe_user_type");
    reveal_strlit("check_type_wf");
    reveal_strlit("check_well_formed");
    reveal_strlit("predicates_of");
    reveal_strlit("resolve_instance_raw");
    reveal_strlit("layout_of");
    reveal_strlit("collect_and_partition_mono_items");
    reveal_strlit("monomorphization_collector");
    reveal_strlit("monomorphization_collector_graph_walk");
    reveal_strlit("link");
    reveal_strlit("link_crate");
    reveal_strlit("link_binary");
    reveal_strlit("run_linker");
    lemma_names_differ();
    let names = kind_names(CargoProfileSemanticKind::Monomorphization);
    let i = choose|i: int| 0 <= i < names.len() && names[i] == q;
    if i == 0 {
        assert(q == "collect_and_partition_mono_items"@);
        assert(q.len() == 32);
    }
    if i == 1 {
        assert(q == "monomorphization_collector"@);
        assert(q.len() == 26);
    }
    if i == 2 {
        assert(q == "monomorphization_collector_graph_walk"@);
        assert(q.len() == 37);
    }
}

proof fn lemma_names_of_linking(q: Seq<char>)
    requires
        kind_names(CargoProfileSemanticKind::Linking).contains(q),
    ensures
        semantic_kind_of(q) == CargoProfileSemanticKind::Linking,
{
    reveal_strlit("typeck");
    reveal_strlit("analysis");
    reveal_strlit("check_match");
    reveal_strlit("evaluate_obligation");
    reveal_strlit("eval_to_const_value_raw");
    reveal_strlit("eval_to_allocation_raw");
    reveal_strlit("trivial_const");
    reveal_strlit("mir_built");
    reveal_strlit("mir_for_ctfe");
    reveal_strlit("mir_drops_elaborated_and_const_checked");
    reveal_strlit("mir_borrowck");
    reveal_strlit("mir_promoted");
    reveal_strlit("type_op_ascribe_user_type");
    reveal_strlit("check_type_wf");
    reveal_strlit("check_well_formed");
    reveal_strlit("predicates_of");
    reveal_strlit("resolve_instance_raw");
    reveal_strlit("layout_of");
    reveal_strlit("collect_and_partition_mono_items");
    reveal_strlit("monomorphization_collector");
    reveal_strlit("monomorphization_collector_graph_walk");
    reveal_strlit("link");
    reveal_strlit("link_crate");
    reveal_strlit("link_binary");
    reveal_strlit("run_linker");
    lemma_names_differ();
    let names = kind_names(CargoProfileSemanticKind::Linking);
    let i = choose|i: int| 0 <= i < names.len() && names[i] == q;
    if i == 0 {
        assert(q == "link"@);
        assert(q.len() == 4);
    }
    if i == 1 {
        assert(q == "link_crate"@);
        assert(q.len() == 10);
    }
    if i == 2 {
        assert(q == "link_binary"@);
        assert(q.len() == 11);
    }
    if i == 3 {
        assert(q == "run_linker"@);
        assert(q.len() == 10);
    }
}

/// The semantic kind of a query name follows the name table: each name of a kind's list has
/// that kind, and a name with a known kind is on that kind's list (every other name is unknown).
pub proof fn semantic_kinds_follow_the_name_table(q: Seq<char>)
    ensures
        forall|k: CargoProfileSemanticKind| #[trigger] kind_names(k).contains(q) ==> semantic_kind_of(q) == k,
        semantic_kind_of(q) == CargoProfileSemanticKind::Unknown || kind_names(semantic_kind_of(q)).contains(q),
{
    assert forall|k: CargoProfileSemanticKind| #[trigger] kind_names(k).contains(q) implies semantic_kind_of(q) == k by {
        match k {
            CargoProfileSemanticKind::TypeCheck => lemma_names_of_typecheck(q),
            CargoProfileSemanticKind::Branching => lemma_names_of_branching(q),
            CargoProfileSemanticKind::ConstraintSolve => lemma_names_of_constraintsolve(q),
            CargoProfileSemanticKind::ConstEval => lemma_names_of_consteval(q),
            CargoProfileSemanticKind::MirBuild => lemma_names_of_mirbuild(q),
            CargoProfileSemanticKind::TypeAscription => lemma_names_of_typeascription(q),
            CargoProfileSemanticKind::WellFormedness => lemma_names_of_wellformedness(q),
            CargoProfileSemanticKind::InstanceResolution => lemma_names_of_instanceresolution(q),
            CargoProfileSemanticKind::Layout => lemma_names_of_layout(q),
            CargoProfileSemanticKind::Monomorphization => lemma_names_of_monomorphization(q),
            CargoProfileSemanticKind::Linking => lemma_names_of_linking(q),
            CargoProfileSemanticKind::Unknown => {},
        }
    }
    let k = semantic_kind_of(q);
    if k != CargoProfileSemanticKind::Unknown {
        let names = kind_names(k);
        if k == CargoProfileSemanticKind::TypeCheck {
                if q == "typeck"@ { assert(names[0] == q); }
                if q == "analysis"@ { assert(names[1] == q); }
        }
        if k == CargoProfileSemanticKind::Branching {
                if q == "check_match"@ { assert(names[0] == q); }
        }
        if k == CargoProfileSemanticKind::ConstraintSolve {
                if q == "evaluate_obligation"@ { assert(names[0] == q); }
        }
        if k == CargoProfileSemanticKind::ConstEval {
                if q == "eval_to_const_value_raw"@ { assert(names[0] == q); }
                if q == "eval_to_allocation_raw"@ { assert(names[1] == q); }
                if q == "trivial_const"@ { assert(names[2] == q); }
        }
        if k == CargoProfileSemanticKind::MirBuild {
                if q == "mir_built"@ { assert(names[0] == q); }
                if q == "mir_for_ctfe"@ { assert(names[1] == q); }
                if q == "mir_drops_elaborated_and_const_checked"@ { assert(names[2] == q); }
                if q == "mir_borrowck"@ { assert(names[3] == q); }
                if q == "mir_promoted"@ { assert(names[4] == q); }
        }
        if k == CargoProfileSemanticKind::TypeAscription {
                if q == "type_op_ascribe_user_type"@ { assert(names[0] == q); }
        }
        if k == CargoProfileSemanticKind::WellFormedness {
                if q == "check_type_wf"@ { assert(names[0] == q); }
                if q == "check_well_formed"@ { assert(names[1] == q); }
                if q == "predicates_of"@ { assert(names[2] == q); }
        }
        if k == CargoProfileSemanticKind::InstanceResolution {
                if q == "resolve_instance_raw"@ { assert(names[0] == q); }
        }
        if k == CargoProfileSemanticKind::Layout {
                if q == "layout_of"@ { assert(names[0] == q); }
        }
        if k == CargoProfileSemanticKind::Monomorphization {
                if q == "collect_and_partition_mono_items"@ { assert(names[0] == q); }
                if q == "monomorphization_collector"@ { assert(names[1] == q); }
                if q == "monomorphization_collector_graph_walk"@ { assert(names[2] == q); }
        }
        if k == CargoProfileSemanticKind::Linking {
                if q == "link"@ { assert(names[0] == q); }
                if q == "link_crate"@ { assert(names[1] == q); }
                if q == "link_binary"@ { assert(names[2] == q); }
                if q == "run_linker"@ { assert(names[3] == q); }
        }
    }
}

/// The semantic kinds of a query: its one kind by name.
pub fn classify_semantics(query: &str) -> (r: Vec<CargoProfileSemanticKind>)
    ensures
        r@ == seq![semantic_kind_of(query@)],
{
    let eq = |name: &str| -> (b: bool)
        ensures
            b == (query@ == name@),
        { crate::text::str_eq(query, name) };
    let kind = if eq("typeck") || eq("analysis") {
        CargoProfileSemanticKind::TypeCheck
    } else if eq("check_match") {
        CargoProfileSemanticKind::Branching
    } else if eq("evaluate_obligation") {
        CargoProfileSemanticKind::ConstraintSolve
    } else if eq("eval_to_const_value_raw") || eq("eval_to_allocation_raw") || eq("trivial_const") {
        CargoProfileSemanticKind::ConstEval
    } else if eq("mir_built") || eq("mir_for_ctfe") || eq("mir_drops_elaborated_and_const_checked") || eq(
        "mir_borrowck",
    ) || eq("mir_promoted") {
        CargoProfileSemanticKind::MirBuild
    } else if eq("type_op_ascribe_user_type") {
        CargoProfileSemanticKind::TypeAscription
    } else if eq("check_type_wf") || eq("check_well_formed") || eq("predicates_of") {
        CargoProfileSemanticKind::WellFormedness
    } else if eq("resolve_instance_raw") {
        CargoProfileSemanticKind::InstanceResolution
    } else if eq("layout_of") {
        CargoProfileSemanticKind::Layout
    } else if eq("collect_and_partition_mono_items") || eq("monomorphization_collector") || eq(
        "monomorphization_collector_graph_walk",
    ) {
        CargoProfileSemanticKind::Monomorphization
    } else if eq("link") || eq("link_crate") || eq("link_binary") || eq("run_linker") {
        CargoProfileSemanticKind::Linking
    } else {
        CargoProfileSemanticKind::Unknown
    };
    let mut r: Vec<CargoProfileSemanticKind> = Vec::new();
    r.push(kind);
    assert(r@ =~= seq![semantic_kind_of(query@)]);
    r
}

/// The domains an argument text shows, in this order: VM state, VM runs, host requests, Peano
/// numerals, type lists, type applications.
pub open spec fn domains_of(a: Seq<char>) -> Seq<CargoProfileDomainKind> {
    (if seq_contains(a, "VmState<"@) {
        seq![CargoProfileDomainKind::VmState]
    } else {
        Seq::empty()
    }) + (if seq_contains(a, "RunVm<"@) {
        seq![CargoProfileDomainKind::RunVm]
    } else {
        Seq::empty()
    }) + (if seq_contains(a, "HostRequest<"@) {
        seq![CargoProfileDomainKind::HostRequest]
    } else {
        Seq::empty()
    }) + (if seq_contains(a, "peano::Succ<"@) || seq_contains(a, "UInt<"@) || seq_contains(a, "UTerm"@) {
        seq![CargoProfileDomainKind::PeanoNat]
    } else {
        Seq::empty()
    }) + (if seq_contains(a, "TArr<"@) || seq_contains(a, "Array<"@) || seq_contains(a, "TTerm"@) {
        seq![CargoProfileDomainKind::TypeList]
    } else {
        Seq::empty()
    }) + (if seq_contains(a, "Apply<"@) || seq_contains(a, "EApp<"@) {
        seq![CargoProfileDomainKind::TypeApply]
    } else {
        Seq::empty()
    })
}

proof fn lemma_opt_contains(c: bool, k: CargoProfileDomainKind, e: CargoProfileDomainKind)
    ensures
        (if c {
            seq![k]
        } else {
            Seq::<CargoProfileDomainKind>::empty()
        }).contains(e) <==> c && e == k,
{
    if c {
        assert(seq![k][0] == k);
    }
}

/// An argument text shows a domain exactly when it holds one of that domain's markers: VM state
/// `VmState<`; VM runs `RunVm<`; host requests `HostRequest<`; Peano numerals `peano::Succ<`,
/// `UInt<` or `UTerm`; type lists `TArr<`, `Array<` or `TTerm`; type applications `Apply<` or
/// `EApp<`.
pub proof fn domains_follow_their_markers(a: Seq<char>)
    ensures
        domains_of(a).contains(CargoProfileDomainKind::VmState) <==> seq_contains(a, "VmState<"@),
        domains_of(a).contains(CargoProfileDomainKind::RunVm) <==> seq_contains(a, "RunVm<"@),
        domains_of(a).contains(CargoProfileDomainKind::HostRequest) <==> seq_contains(a, "HostRequest<"@),
        domains_of(a).contains(CargoProfileDomainKind::PeanoNat) <==> seq_contains(a, "peano::Succ<"@) || seq_contains(
            a,
            "UInt<"@,
        ) || seq_contains(a, "UTerm"@),
        domains_of(a).contains(CargoProfileDomainKind::TypeList) <==> seq_contains(a, "TArr<"@) || seq_contains(
            a,
            "Array<"@,
        ) || seq_contains(a, "TTerm"@),
        domains_of(a).contains(CargoProfileDomainKind::TypeApply) <==> seq_contains(a, "Apply<"@) || seq_contains(
            a,
            "EApp<"@,
        ),
{
    let c1 = seq_contains(a, "VmState<"@);
    let c2 = seq_contains(a, "RunVm<"@);
    let c3 = seq_contains(a, "HostRequest<"@);
    let c4 = seq_contains(a, "peano::Succ<"@) || seq_contains(a, "UInt<"@) || seq_contains(a, "UTerm"@);
    let c5 = seq_contains(a, "TArr<"@) || seq_contains(a, "Array<"@) || seq_contains(a, "TTerm"@);
    let c6 = seq_contains(a, "Apply<"@) || seq_contains(a, "EApp<"@);
    let s1 = if c1 { seq![CargoProfileDomainKind::VmState] } else { Seq::empty() };
    let s2 = if c2 { seq![CargoProfileDomainKind::RunVm] } else { Seq::empty() };
    let s3 = if c3 { seq![CargoProfileDomainKind::HostRequest] } else { Seq::empty() };
    let s4 = if c4 { seq![CargoProfileDomainKind::PeanoNat] } else { Seq::empty() };
    let s5 = if c5 { seq![CargoProfileDomainKind::TypeList] } else { Seq::empty() };
    let s6 = if c6 { seq![CargoProfileDomainKind::TypeApply] } else { Seq::empty() };
    assert(domains_of(a) == s1 + s2 + s3 + s4 + s5 + s6);
    let kinds = seq![
        CargoProfileDomainKind::VmState,
        CargoProfileDomainKind::RunVm,
        CargoProfileDomainKind::HostRequest,
        CargoProfileDomainKind::PeanoNat,
        CargoProfileDomainKind::TypeList,
        CargoProfileDomainKind::TypeApply,
    ];
    assert forall|j: int| 0 <= j < 6 implies #[trigger] domains_of(a).contains(kinds[j]) <==> (s1.contains(kinds[j])
        || s2.contains(kinds[j]) || s3.contains(kinds[j]) || s4.contains(kinds[j]) || s5.contains(kinds[j])
        || s6.contains(kinds[j])) by {
        let e = kinds[j];
        crate::text::lemma_concat_contains(s1 + s2 + s3 + s4 + s5, s6, e);
        crate::text::lemma_concat_contains(s1 + s2 + s3 + s4, s5, e);
        crate::text::lemma_concat_contains(s1 + s2 + s3, s4, e);
        crate::text::lemma_concat_contains(s1 + s2, s3, e);
        crate::text::lemma_concat_contains(s1, s2, e);
    }
    lemma_opt_contains(c1, CargoProfileDomainKind::VmState, CargoProfileDomainKind::VmState);
    lemma_opt_contains(c2, CargoProfileDomainKind::RunVm, CargoProfileDomainKind::VmState);
    lemma_opt_contains(c3, CargoProfileDomainKind::HostRequest, CargoProfileDomainKind::VmState);
    lemma_opt_contains(c4, CargoProfileDomainKind::PeanoNat, CargoProfileDomainKind::VmState);
    lemma_opt_contains(c5, CargoProfileDomainKind::TypeList, CargoProfileDomainKind::VmState);
    lemma_opt_contains(c6, CargoProfileDomainKind::TypeApply, CargoProfileDomainKind::VmState);
    assert(domains_of(a).contains(kinds[0]) <==> c1);
    lemma_opt_contains(c1, CargoProfileDomainKind::VmState, CargoProfileDomainKind::RunVm);
    lemma_opt_contains(c2, CargoProfileDomainKind::RunVm, CargoProfileDomainKind::RunVm);
    lemma_opt_contains(c3, CargoProfileDomainKind::HostRequest, CargoProfileDomainKind::RunVm);
    lemma_opt_contains(c4, CargoProfileDomainKind::PeanoNat, CargoProfileDomainKind::RunVm);
    lemma_opt_contains(c5, CargoProfileDomainKind::TypeList, CargoProfileDomainKind::RunVm);
    lemma_opt_contains(c6, CargoProfileDomainKind::TypeApply, CargoProfileDomainKind::RunVm);
    assert(domains_of(a).contains(kinds[1]) <==> c2);
    lemma_opt_contains(c1, CargoProfileDomainKind::VmState, CargoProfileDomainKind::HostRequest);
    lemma_opt_contains(c2, CargoProfileDomainKind::RunVm, CargoProfileDomainKind::HostRequest);
    lemma_opt_contains(c3, CargoProfileDomainKind::HostRequest, CargoProfileDomainKind::HostRequest);
    lemma_opt_contains(c4, CargoProfileDomainKind::PeanoNat, CargoProfileDomainKind::HostRequest);
    lemma_opt_contains(c5, CargoProfileDomainKind::TypeList, CargoProfileDomainKind::HostRequest);
    lemma_opt_contains(c6, CargoProfileDomainKind::TypeApply, CargoProfileDomainKind::HostRequest);
    assert(domains_of(a).contains(kinds[2]) <==> c3);
    lemma_opt_contains(c1, CargoProfileDomainKind::VmState, CargoProfileDomainKind::PeanoNat);
    lemma_opt_contains(c2, CargoProfileDomainKind::RunVm, CargoProfileDomainKind::PeanoNat);
    lemma_opt_contains(c3, CargoProfileDomainKind::HostRequest, CargoProfileDomainKind::PeanoNat);
    lemma_opt_contains(c4, CargoProfileDomainKind::PeanoNat, CargoProfileDomainKind::PeanoNat);
    lemma_opt_contains(c5, CargoProfileDomainKind::TypeList, CargoProfileDomainKind::PeanoNat);
    lemma_opt_contains(c6, CargoProfileDomainKind::TypeApply, CargoProfileDomainKind::PeanoNat);
    assert(domains_of(a).contains(kinds[3]) <==> c4);
    lemma_opt_contains(c1, CargoProfileDomainKind::VmState, CargoProfileDomainKind::TypeList);
    lemma_opt_contains(c2, CargoProfileDomainKind::RunVm, CargoProfileDomainKind::TypeList);
    lemma_opt_contains(c3, CargoProfileDomainKind::HostRequest, CargoProfileDomainKind::TypeList);
    lemma_opt_contains(c4, CargoProfileDomainKind::PeanoNat, CargoProfileDomainKind::TypeList);
    lemma_opt_contains(c5, CargoProfileDomainKind::TypeList, CargoProfileDomainKind::TypeList);
    lemma_opt_contains(c6, CargoProfileDomainKind::TypeApply, CargoProfileDomainKind::TypeList);
    assert(domains_of(a).contains(kinds[4]) <==> c5);
    lemma_opt_contains(c1, CargoProfileDomainKind::VmState, CargoProfileDomainKind::TypeApply);
    lemma_opt_contains(c2, CargoProfileDomainKind::RunVm, CargoProfileDomainKind::TypeApply);
    lemma_opt_contains(c3, CargoProfileDomainKind::HostRequest, CargoProfileDomainKind::TypeApply);
    lemma_opt_contains(c4, CargoProfileDomainKind::PeanoNat, CargoProfileDomainKind::TypeApply);
    lemma_opt_contains(c5, CargoProfileDomainKind::TypeList, CargoProfileDomainKind::TypeApply);
    lemma_opt_contains(c6, CargoProfileDomainKind::TypeApply, CargoProfileDomainKind::TypeApply);
    assert(domains_of(a).contains(kinds[5]) <==> c6);
}

fn push_domain_if(v: &mut Vec<CargoProfileDomainKind>, cond: bool, k: CargoProfileDomainKind)
    ensures
        final(v)@ == old(v)@ + if cond {
            seq![k]
        } else {
            Seq::empty()
        },
{
    let ghost before = v@;
    if cond {
        v.push(k);
    }
    assert(v@ =~= before + if cond {
        seq![k]
    } else {
        Seq::empty()
    });
}

/// The domains an argument text shows: see [`domains_of`].
pub fn detect_domains(arg0: &str) -> (r: Vec<CargoProfileDomainKind>)
    ensures
        r@ == domains_of(arg0@),
{
    let mut d: Vec<CargoProfileDomainKind> = Vec::new();
    assert(d@ =~= Seq::<CargoProfileDomainKind>::empty());
    push_domain_if(&mut d, str_contains(arg0, "VmState<"), CargoProfileDomainKind::VmState);
    push_domain_if(&mut d, str_contains(arg0, "RunVm<"), CargoProfileDomainKind::RunVm);
    push_domain_if(&mut d, str_contains(arg0, "HostRequest<"), CargoProfileDomainKind::HostRequest);
    push_domain_if(
        &mut d,
        str_contains(arg0, "peano::Succ<") || str_contains(arg0, "UInt<") || str_contains(arg0, "UTerm"),
        CargoProfileDomainKind::PeanoNat,
    );
    push_domain_if(
        &mut d,
        str_contains(arg0, "TArr<") || str_contains(arg0, "Array<") || str_contains(arg0, "TTerm"),
        CargoProfileDomainKind::TypeList,
    );
    push_domain_if(&mut d, str_contains(arg0, "Apply<") || str_contains(arg0, "EApp<"), CargoProfileDomainKind::TypeApply);
    assert(d@ =~= domains_of(arg0@));
    d
}

/// A character that continues a path: ASCII letters and digits, `:` and `_`.
pub open spec fn is_path_char(c: char) -> bool {
    crate::text::is_ascii_alnum_char(c) || c == ':' || c == '_'
}

/// The length of the path that starts `s`: its first character, then every following path character.
pub open spec fn path_run(s: Seq<char>) -> int
    decreases s.len(),
{
    if s.len() <= 1 {
        s.len() as int
    } else if is_path_char(s[1]) {
        1 + path_run(s.drop_first())
    } else {
        1
    }
}

/// The path-like text that starts at the first occurrence of `needle`.
pub open spec fn path_like_spec(input: Seq<char>, needle: Seq<char>) -> Option<Seq<char>> {
    match crate::text::first_occurrence(input, needle) {
        Some(start) => {
            let suffix = input.skip(start);
            Some(suffix.take(path_run(suffix)))
        },
        None => None,
    }
}

proof fn lemma_path_run_bounds(s: Seq<char>)
    ensures
        0 <= path_run(s) <= s.len(),
        s.len() > 0 ==> path_run(s) >= 1,
    decreases s.len(),
{
    if s.len() > 1 && is_path_char(s[1]) {
        lemma_path_run_bounds(s.drop_first());
    }
}

proof fn lemma_path_run_exact(s: Seq<char>, m: int)
    requires
        1 <= m <= s.len(),
        forall|k: int| 1 <= k < m ==> is_path_char(#[trigger] s[k]),
        m == s.len() || !is_path_char(s[m]),
    ensures
        path_run(s) == m,
    decreases s.len(),
{
    if s.len() > 1 && is_path_char(s[1]) {
        assert forall|k: int| 1 <= k < m - 1 implies is_path_char(#[trigger] s.drop_first()[k]) by {
            assert(s.drop_first()[k] == s[k + 1]);
        }
        if m - 1 < s.drop_first().len() {
            assert(s.drop_first()[m - 1] == s[m]);
        }
        lemma_path_run_exact(s.drop_first(), m - 1);
    }
}

fn is_path_character(c: char) -> (b: bool)
    ensures
        b == is_path_char(c),
{
    ('a' <= c && c <= 'z') || ('A' <= c && c <= 'Z') || ('0' <= c && c <= '9') || c == ':' || c == '_'
}

pub fn find_path_like(input: &str, needle: &str) -> (r: Option<String>)
    ensures
        match r {
            Some(t) => path_like_spec(input@, needle@) == Some(t@),
            None => path_like_spec(input@, needle@) is None,
        },
{
    let v = str_chars(input);
    let n = str_chars(needle);
    let start = match crate::text::find_first(&v, &n) {
        Some(s) => s,
        None => return None,
    };
    let ghost suffix = v@.skip(start as int);
    if start == v.len() {
        assert(suffix.len() == 0);
        assert(suffix.take(0) =~= Seq::<char>::empty());
        return Some(String::new());
    }
    let mut end: usize = start + 1;
    while end < v.len() && is_path_character(v[end])
        invariant
            start < end <= v.len(),
            forall|k: int| start + 1 <= k < end ==> is_path_char(#[trigger] v@[k]),
        decreases v.len() - end,
    {
        end += 1;
    }
    proof {
        assert forall|k: int| 1 <= k < end - start implies is_path_char(#[trigger] suffix[k]) by {
            assert(suffix[k] == v@[start + k]);
        }
        if end < v.len() {
            assert(suffix[end - start] == v@[end as int]);
        }
        lemma_path_run_exact(suffix, end - start);
    }
    let r = crate::text::string_from_range(&v, start, end);
    assert(r@ =~= suffix.take(end - start));
    Some(r)
}

/// The item an argument text names: the path after the first of the known crate prefixes that
/// occurs in it, tried in order.
pub open spec fn item_label_spec(a: Seq<char>) -> Option<Seq<char>> {
    match path_like_spec(a, "program_fibonacci::"@) {
        Some(p) => Some(p),
        None => match path_like_spec(a, "typelude_vm::"@) {
            Some(p) => Some(p),
            None => match path_like_spec(a, "typelude_std::"@) {
                Some(p) => Some(p),
                None => match path_like_spec(a, "typelude_num::"@) {
                    Some(p) => Some(p),
                    None => path_like_spec(a, "typelude_col::"@),
                },
            },
        },
    }
}

pub fn extract_item_label(arg0: &str) -> (r: Option<String>)
    ensures
        match r {
            Some(t) => item_label_spec(arg0@) == Some(t@),
            None => item_label_spec(arg0@) is None,
        },
{
    if let Some(p) = find_path_like(arg0, "program_fibonacci::") {
        return Some(p);
    }
    if let Some(p) = find_path_like(arg0, "typelude_vm::") {
        return Some(p);
    }
    if let Some(p) = find_path_like(arg0, "typelude_std::") {
        return Some(p);
    }
    if let Some(p) = find_path_like(arg0, "typelude_num::") {
        return Some(p);
    }
    find_path_like(arg0, "typelude_col::")
}

} // verus!
