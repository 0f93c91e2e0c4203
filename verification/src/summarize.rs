//! Reading the JSON summary of a self-profile: its queries ranked by self time and by total
//! time, and its artifacts by size.
use vstd::prelude::*;

use crate::cargo_profile::{ArtifactSize, SelfProfileQueryStat, SelfProfileSummaryAnalysis};
use crate::rank::{RankKey, RankKeyView, as_ints, is_ranking, key_views, pick, rank_order};
use crate::tally::kept;

verus! {

broadcast use vstd::seq_lib::group_seq_properties;

/// A duration as the summary writes it.
#[derive(Debug, Clone, Copy, PartialEq, Eq)]
pub struct DurationValue {
    pub secs: u64,
    pub nanos: u32,
}

/// A query of the summary.
#[derive(Debug, Clone, PartialEq, Eq)]
pub struct SummarizeQueryJson {
    pub label: String,
    pub time: DurationValue,
    pub self_time: DurationValue,
    pub number_of_cache_misses: u64,
    pub number_of_cache_hits: u64,
    pub invocation_count: u64,
}

/// An artifact size of the summary.
#[derive(Debug, Clone, PartialEq, Eq)]
pub struct ArtifactSizeJson {
    pub label: String,
    pub value: u64,
}

/// The summary the `summarize` tool writes of a self-profile.
#[derive(Debug, Clone, PartialEq, Eq)]
pub struct SummarizeJson {
    pub query_data: Vec<SummarizeQueryJson>,
    pub artifact_sizes: Vec<ArtifactSizeJson>,
    pub total_time: DurationValue,
}

/// A duration in microseconds: the seconds (at most the largest `u64`) and the whole
/// microseconds of the nanoseconds.
pub open spec fn duration_us(d: DurationValue) -> nat {
    let s = d.secs * 1_000_000;
    (if s <= u64::MAX {
        s as nat
    } else {
        u64::MAX as nat
    }) + (d.nanos / 1000) as nat
}

/// The duration's microseconds fit in a `u64`.
pub open spec fn duration_fits(d: DurationValue) -> bool {
    duration_us(d) <= u64::MAX
}

/// `secs` in microseconds, at most the largest `u64` (a saturating product).
fn secs_us(secs: u64) -> (r: u64)
    ensures
        r == (if secs * 1_000_000 <= u64::MAX {
            (secs * 1_000_000) as u64
        } else {
            u64::MAX
        }),
{
    match secs.checked_mul(1_000_000) {
        Some(v) => v,
        None => u64::MAX,
    }
}

impl DurationValue {
    /// The duration in microseconds (see [`duration_us`]).
    pub fn total_us(&self) -> (r: u64)
        requires
            duration_fits(*self),
        ensures
            r == duration_us(*self),
    {
        secs_us(self.secs) + (self.nanos / 1000) as u64
    }

    /// Whether the duration's microseconds fit in a `u64`.
    pub fn fits(&self) -> (b: bool)
        ensures
            b == duration_fits(*self),
    {
        secs_us(self.secs).checked_add((self.nanos / 1000) as u64).is_some()
    }
}

/// Every duration of the summary fits.
pub open spec fn summary_fits(s: SummarizeJson) -> bool {
    &&& duration_fits(s.total_time)
    &&& forall|i: int|
        0 <= i < s.query_data@.len() ==> duration_fits((#[trigger] s.query_data@[i]).time) && duration_fits(
            s.query_data@[i].self_time,
        )
}

/// A query's figures as values.
pub struct StatRow {
    pub label: Seq<char>,
    pub total: nat,
    pub self_time: nat,
    pub invocations: nat,
    pub hits: nat,
    pub misses: nat,
}

impl View for SelfProfileQueryStat {
    type V = StatRow;

    open spec fn view(&self) -> StatRow {
        StatRow {
            label: self.label@,
            total: self.total_us as nat,
            self_time: self.self_us as nat,
            invocations: self.invocation_count as nat,
            hits: self.cache_hits as nat,
            misses: self.cache_misses as nat,
        }
    }
}

pub open spec fn stat_rows(v: Seq<SelfProfileQueryStat>) -> Seq<StatRow> {
    v.map_values(|q: SelfProfileQueryStat| q@)
}

/// The figures of a query of the summary.
pub open spec fn stat_of(q: SummarizeQueryJson) -> StatRow {
    StatRow {
        label: q.label@,
        total: duration_us(q.time),
        self_time: duration_us(q.self_time),
        invocations: q.invocation_count as nat,
        hits: q.number_of_cache_hits as nat,
        misses: q.number_of_cache_misses as nat,
    }
}

pub open spec fn stats_of(qs: Seq<SummarizeQueryJson>) -> Seq<StatRow> {
    qs.map_values(|q: SummarizeQueryJson| stat_of(q))
}

/// By self time, then total time, then label.
pub open spec fn self_time_key(r: StatRow) -> RankKeyView {
    RankKeyView { major: r.self_time as int, minor: r.total as int, label: r.label }
}

/// By total time, then self time, then label.
pub open spec fn total_time_key(r: StatRow) -> RankKeyView {
    RankKeyView { major: r.total as int, minor: r.self_time as int, label: r.label }
}

pub open spec fn self_time_keys(rs: Seq<StatRow>) -> Seq<RankKeyView> {
    rs.map_values(|r: StatRow| self_time_key(r))
}

pub open spec fn total_time_keys(rs: Seq<StatRow>) -> Seq<RankKeyView> {
    rs.map_values(|r: StatRow| total_time_key(r))
}

/// An artifact as values.
pub struct ArtifactRow {
    pub label: Seq<char>,
    pub bytes: nat,
}

impl View for ArtifactSize {
    type V = ArtifactRow;

    open spec fn view(&self) -> ArtifactRow {
        ArtifactRow { label: self.label@, bytes: self.bytes as nat }
    }
}

pub open spec fn artifact_rows(v: Seq<ArtifactSize>) -> Seq<ArtifactRow> {
    v.map_values(|a: ArtifactSize| a@)
}

pub open spec fn artifacts_of(v: Seq<ArtifactSizeJson>) -> Seq<ArtifactRow> {
    v.map_values(|a: ArtifactSizeJson| ArtifactRow { label: a.label@, bytes: a.value as nat })
}

/// By size, then label.
pub open spec fn artifact_keys(rs: Seq<ArtifactRow>) -> Seq<RankKeyView> {
    rs.map_values(|r: ArtifactRow| RankKeyView { major: r.bytes as int, minor: 0, label: r.label })
}

/// `a` is the analysis of the summary `s`: its total time, its `top` queries by self time and
/// by total time, and all its artifacts, largest first.
pub open spec fn is_summary_analysis(a: SelfProfileSummaryAnalysis, s: SummarizeJson, top: nat) -> bool {
    let stats = stats_of(s.query_data@);
    let arts = artifacts_of(s.artifact_sizes@);
    &&& a.total_time_us == duration_us(s.total_time)
    &&& exists|p: Seq<int>|
        #[trigger] is_ranking(self_time_keys(stats), p) && stat_rows(a.top_self_time@) == pick(stats, p).take(
            kept(top, stats.len()),
        )
    &&& exists|p: Seq<int>|
        #[trigger] is_ranking(total_time_keys(stats), p) && stat_rows(a.top_total_time@) == pick(stats, p).take(
            kept(top, stats.len()),
        )
    &&& exists|p: Seq<int>| #[trigger] is_ranking(artifact_keys(arts), p) && artifact_rows(a.artifacts@) == pick(arts, p)
}

fn to_query_stat(value: &SummarizeQueryJson) -> (r: SelfProfileQueryStat)
    requires
        duration_fits(value.time),
        duration_fits(value.self_time),
    ensures
        r@ == stat_of(*value),
{
    SelfProfileQueryStat {
        label: value.label.clone(),
        total_us: value.time.total_us(),
        self_us: value.self_time.total_us(),
        invocation_count: value.invocation_count,
        cache_hits: value.number_of_cache_hits,
        cache_misses: value.number_of_cache_misses,
    }
}

/// The stats at the positions `p`, the first `n` of them.
fn pick_stats(stats: &Vec<SelfProfileQueryStat>, p: &Vec<usize>, n: usize) -> (r: Vec<SelfProfileQueryStat>)
    requires
        n <= p.len(),
        forall|i: int| 0 <= i < p.len() ==> #[trigger] p@[i] < stats.len(),
    ensures
        stat_rows(r@) == pick(stat_rows(stats@), as_ints(p@)).take(n as int),
{
    let ghost rs = stat_rows(stats@);
    let mut r: Vec<SelfProfileQueryStat> = Vec::new();
    let mut j: usize = 0;
    while j < n
        invariant
            j <= n <= p.len(),
            rs == stat_rows(stats@),
            forall|i: int| 0 <= i < p.len() ==> #[trigger] p@[i] < stats.len(),
            stat_rows(r@) == pick(rs, as_ints(p@)).take(j as int),
        decreases n - j,
    {
        let src = &stats[p[j]];
        let row = SelfProfileQueryStat {
            label: src.label.clone(),
            total_us: src.total_us,
            self_us: src.self_us,
            invocation_count: src.invocation_count,
            cache_hits: src.cache_hits,
            cache_misses: src.cache_misses,
        };
        let ghost before = r@;
        r.push(row);
        proof {
            let ps = as_ints(p@);
            assert(rs[ps[j as int]] == src@);
            assert(pick(rs, ps)[j as int] == rs[ps[j as int]]);
            assert(pick(rs, ps).take(j + 1) =~= pick(rs, ps).take(j as int).push(pick(rs, ps)[j as int]));
            assert(stat_rows(r@) =~= stat_rows(before).push(row@));
        }
        j += 1;
    }
    r
}

impl SummarizeJson {
    /// Whether every duration of the summary fits (see [`summary_fits`]).
    pub fn fits(&self) -> (b: bool)
        ensures
            b == summary_fits(*self),
    {
        if !self.total_time.fits() {
            return false;
        }
        let mut i: usize = 0;
        while i < self.query_data.len()
            invariant
                i <= self.query_data.len(),
                forall|j: int|
                    0 <= j < i ==> duration_fits((#[trigger] self.query_data@[j]).time) && duration_fits(
                        self.query_data@[j].self_time,
                    ),
            decreases self.query_data.len() - i,
        {
            if !self.query_data[i].time.fits() || !self.query_data[i].self_time.fits() {
                return false;
            }
            i += 1;
        }
        true
    }

    /// The analysis of the summary, its query tables cut to `top` rows (see
    /// [`is_summary_analysis`]).
    pub fn finish(&self, top: usize) -> (r: SelfProfileSummaryAnalysis)
        requires
            summary_fits(*self),
        ensures
            is_summary_analysis(r, *self, top as nat),
    {
        let ghost stats = stats_of(self.query_data@);
        let mut all: Vec<SelfProfileQueryStat> = Vec::new();
        let mut self_keys: Vec<RankKey> = Vec::new();
        let mut total_keys: Vec<RankKey> = Vec::new();
        let mut i: usize = 0;
        while i < self.query_data.len()
            invariant
                i <= self.query_data.len(),
                summary_fits(*self),
                stats == stats_of(self.query_data@),
                all.len() == i && self_keys.len() == i && total_keys.len() == i,
                forall|j: int| 0 <= j < i ==> (#[trigger] all@[j])@ == stats[j],
                forall|j: int| 0 <= j < i ==> (#[trigger] self_keys@[j])@ == self_time_key(stats[j]),
                forall|j: int| 0 <= j < i ==> (#[trigger] total_keys@[j])@ == total_time_key(stats[j]),
            decreases self.query_data.len() - i,
        {
            let stat = to_query_stat(&self.query_data[i]);
            self_keys.push(RankKey { major: stat.self_us, minor: stat.total_us, label: stat.label.clone() });
            total_keys.push(RankKey { major: stat.total_us, minor: stat.self_us, label: stat.label.clone() });
            all.push(stat);
            i += 1;
        }
        assert(stat_rows(all@) =~= stats);
        let sp = rank_order(&self_keys);
        assert(key_views(self_keys@) =~= self_time_keys(stats));
        let tp = rank_order(&total_keys);
        assert(key_views(total_keys@) =~= total_time_keys(stats));
        let n = if top < all.len() {
            top
        } else {
            all.len()
        };
        proof {
            assert forall|a: int| 0 <= a < sp.len() implies #[trigger] sp@[a] < all.len() by {
                assert(as_ints(sp@)[a] == sp@[a] as int);
            }
            assert forall|a: int| 0 <= a < tp.len() implies #[trigger] tp@[a] < all.len() by {
                assert(as_ints(tp@)[a] == tp@[a] as int);
            }
        }
        let top_self_time = pick_stats(&all, &sp, n);
        let top_total_time = pick_stats(&all, &tp, n);

        let ghost arts = artifacts_of(self.artifact_sizes@);
        let mut art_keys: Vec<RankKey> = Vec::new();
        let mut k: usize = 0;
        while k < self.artifact_sizes.len()
            invariant
                k <= self.artifact_sizes.len(),
                arts == artifacts_of(self.artifact_sizes@),
                art_keys.len() == k,
                forall|j: int|
                    0 <= j < k ==> (#[trigger] art_keys@[j])@ == (RankKeyView {
                        major: arts[j].bytes as int,
                        minor: 0,
                        label: arts[j].label,
                    }),
            decreases self.artifact_sizes.len() - k,
        {
            art_keys.push(
                RankKey { major: self.artifact_sizes[k].value, minor: 0, label: self.artifact_sizes[k].label.clone() },
            );
            k += 1;
        }
        let ap = rank_order(&art_keys);
        assert(key_views(art_keys@) =~= artifact_keys(arts));
        let mut artifacts: Vec<ArtifactSize> = Vec::new();
        let mut j: usize = 0;
        while j < ap.len()
            invariant
                j <= ap.len(),
                ap.len() == self.artifact_sizes.len(),
                arts == artifacts_of(self.artifact_sizes@),
                is_ranking(artifact_keys(arts), as_ints(ap@)),
                artifact_rows(artifacts@) == pick(arts, as_ints(ap@)).take(j as int),
            decreases ap.len() - j,
        {
            assert(0 <= as_ints(ap@)[j as int] < arts.len());
            let src = &self.artifact_sizes[ap[j]];
            let row = ArtifactSize { label: src.label.clone(), bytes: src.value };
            let ghost before = artifacts@;
            artifacts.push(row);
            proof {
                let ps = as_ints(ap@);
                assert(arts[ps[j as int]] == row@);
                assert(pick(arts, ps)[j as int] == arts[ps[j as int]]);
                assert(pick(arts, ps).take(j + 1) =~= pick(arts, ps).take(j as int).push(pick(arts, ps)[j as int]));
                assert(artifact_rows(artifacts@) =~= artifact_rows(before).push(row@));
            }
            j += 1;
        }
        assert(pick(arts, as_ints(ap@)).take(j as int) =~= pick(arts, as_ints(ap@)));
        SelfProfileSummaryAnalysis {
            total_time_us: self.total_time.total_us(),
            top_self_time,
            top_total_time,
            artifacts,
        }
    }
}

} // verus!
