//! Aggregating the events of a chrome profiler trace: what each event counts towards.
use vstd::prelude::*;

use crate::cargo_profile::{
    CargoProfileDomainKind, CargoProfileSemanticKind, ChromeLongestEvent, ChromeProfileAnalysis, DurationCount, ItemHotspot, QueryHotspot,
    domain_kind_label, domain_labels, domains_of, item_label_spec, semantic_kind_label, semantic_kind_of,
};
use crate::rank::{RankKey, RankKeyView, as_ints, is_ranking, key_views, pick, rank_order};
use crate::tally::{CountRow, can_compact, compact_spec, count_rows, is_top_counts, kept, labels_distinct, lemma_tally_add, lemma_tally_add_all, tally_add, tally_add_all, tally_add_exec, tally_bounded};
use crate::text::decimal;

verus! {

broadcast use vstd::seq_lib::group_seq_properties;

/// One event of a chrome profiler trace, with the first argument the profiler recorded.
#[derive(Debug, Clone, PartialEq, Eq)]
pub struct ChromeEvent {
    pub name: String,
    pub cat: Option<String>,
    pub ts: Option<u64>,
    pub dur: Option<u64>,
    pub tid: Option<u64>,
    pub arg0: Option<String>,
}

pub open spec fn opt_text(o: Option<String>) -> Option<Seq<char>> {
    match o {
        Some(s) => Some(s@),
        None => None,
    }
}

/// The duration of an event, zero where none was recorded.
pub open spec fn event_duration(e: ChromeEvent) -> nat {
    match e.dur {
        Some(d) => d as nat,
        None => 0,
    }
}

/// The category of an event, `<none>` where none was recorded.
pub open spec fn event_category(e: ChromeEvent) -> Seq<char> {
    match e.cat {
        Some(c) => c@,
        None => "<none>"@,
    }
}

/// The thread of an event in decimal, `<none>` where none was recorded.
pub open spec fn event_thread(e: ChromeEvent) -> Seq<char> {
    match e.tid {
        Some(t) => decimal(t as nat),
        None => "<none>"@,
    }
}

/// The semantic labels of an event: the one of its query name.
pub open spec fn event_semantic_labels(e: ChromeEvent) -> Seq<Seq<char>> {
    seq![semantic_kind_label(semantic_kind_of(e.name@))]
}

/// The domains an event's argument shows.
pub open spec fn event_domains(e: ChromeEvent) -> Seq<CargoProfileDomainKind> {
    match e.arg0 {
        Some(a) => domains_of(a@),
        None => Seq::empty(),
    }
}

/// The item an event's argument names.
pub open spec fn event_item(e: ChromeEvent) -> Option<Seq<char>> {
    match e.arg0 {
        Some(a) => item_label_spec(a@),
        None => None,
    }
}

/// The total duration of the events.
pub open spec fn total_of(es: Seq<ChromeEvent>) -> nat
    decreases es.len(),
{
    if es.len() == 0 {
        0
    } else {
        total_of(es.drop_last()) + event_duration(es.last())
    }
}

/// Time and events by category.
pub open spec fn categories_after(es: Seq<ChromeEvent>) -> Seq<CountRow>
    decreases es.len(),
{
    if es.len() == 0 {
        Seq::empty()
    } else {
        tally_add(categories_after(es.drop_last()), event_category(es.last()), event_duration(es.last()))
    }
}

/// Time and events by thread.
pub open spec fn threads_after(es: Seq<ChromeEvent>) -> Seq<CountRow>
    decreases es.len(),
{
    if es.len() == 0 {
        Seq::empty()
    } else {
        tally_add(threads_after(es.drop_last()), event_thread(es.last()), event_duration(es.last()))
    }
}

/// Time and events by semantic kind.
pub open spec fn semantics_after(es: Seq<ChromeEvent>) -> Seq<CountRow>
    decreases es.len(),
{
    if es.len() == 0 {
        Seq::empty()
    } else {
        tally_add_all(semantics_after(es.drop_last()), event_semantic_labels(es.last()), event_duration(es.last()))
    }
}

/// Time and events by domain.
pub open spec fn domains_after(es: Seq<ChromeEvent>) -> Seq<CountRow>
    decreases es.len(),
{
    if es.len() == 0 {
        Seq::empty()
    } else {
        tally_add_all(domains_after(es.drop_last()), domain_labels(event_domains(es.last())), event_duration(es.last()))
    }
}

/// `into` followed by those of `values` it does not hold yet, each once.
pub open spec fn extend_unique<T>(into: Seq<T>, values: Seq<T>) -> Seq<T>
    decreases values.len(),
{
    if values.len() == 0 {
        into
    } else {
        let r = extend_unique(into, values.drop_last());
        if r.contains(values.last()) {
            r
        } else {
            r.push(values.last())
        }
    }
}

/// A query as values.
pub struct QueryRow {
    pub name: Seq<char>,
    pub total: nat,
    pub count: nat,
    pub max: nat,
    pub example: Option<Seq<char>>,
    pub semantics: Seq<CargoProfileSemanticKind>,
    pub domains: Seq<CargoProfileDomainKind>,
}

impl View for QueryHotspot {
    type V = QueryRow;

    open spec fn view(&self) -> QueryRow {
        QueryRow {
            name: self.name@,
            total: self.total_us as nat,
            count: self.count as nat,
            max: self.max_us as nat,
            example: opt_text(self.example_arg0),
            semantics: self.semantic_kinds@,
            domains: self.domain_kinds@,
        }
    }
}

pub open spec fn query_rows(v: Seq<QueryHotspot>) -> Seq<QueryRow> {
    v.map_values(|q: QueryHotspot| q@)
}

/// The position of the first query named `name`.
pub open spec fn query_index(qs: Seq<QueryRow>, name: Seq<char>) -> Option<int>
    decreases qs.len(),
{
    if qs.len() == 0 {
        None
    } else {
        match query_index(qs.drop_last(), name) {
            Some(i) => Some(i),
            None => if qs.last().name == name {
                Some(qs.len() - 1)
            } else {
                None
            },
        }
    }
}

/// The queries after a query event: its row grows (the first argument seen stays its
/// example), or a new row comes last.
pub open spec fn query_add(qs: Seq<QueryRow>, e: ChromeEvent) -> Seq<QueryRow> {
    let d = event_duration(e);
    let sems = seq![semantic_kind_of(e.name@)];
    let doms = event_domains(e);
    match query_index(qs, e.name@) {
        Some(i) => qs.update(
            i,
            QueryRow {
                name: e.name@,
                total: qs[i].total + d,
                count: qs[i].count + 1,
                max: if qs[i].max >= d {
                    qs[i].max
                } else {
                    d
                },
                example: if qs[i].example is None {
                    opt_text(e.arg0)
                } else {
                    qs[i].example
                },
                semantics: extend_unique(qs[i].semantics, sems),
                domains: extend_unique(qs[i].domains, doms),
            },
        ),
        None => qs.push(
            QueryRow {
                name: e.name@,
                total: d,
                count: 1,
                max: d,
                example: opt_text(e.arg0),
                semantics: extend_unique(Seq::empty(), sems),
                domains: extend_unique(Seq::empty(), doms),
            },
        ),
    }
}

/// The queries of the events of category `Query`.
pub open spec fn queries_after(es: Seq<ChromeEvent>) -> Seq<QueryRow>
    decreases es.len(),
{
    if es.len() == 0 {
        Seq::empty()
    } else if event_category(es.last()) == "Query"@ {
        query_add(queries_after(es.drop_last()), es.last())
    } else {
        queries_after(es.drop_last())
    }
}

/// An item as values.
pub struct ItemRow {
    pub item: Seq<char>,
    pub total: nat,
    pub queries: Seq<CountRow>,
    pub semantics: Seq<CountRow>,
    pub domains: Seq<CountRow>,
}

impl View for ItemHotspot {
    type V = ItemRow;

    open spec fn view(&self) -> ItemRow {
        ItemRow {
            item: self.item@,
            total: self.total_us as nat,
            queries: count_rows(self.query_breakdown@),
            semantics: count_rows(self.semantic_breakdown@),
            domains: count_rows(self.domain_breakdown@),
        }
    }
}

pub open spec fn item_rows(v: Seq<ItemHotspot>) -> Seq<ItemRow> {
    v.map_values(|i: ItemHotspot| i@)
}

/// The position of the first row of `item`.
pub open spec fn item_index(its: Seq<ItemRow>, item: Seq<char>) -> Option<int>
    decreases its.len(),
{
    if its.len() == 0 {
        None
    } else {
        match item_index(its.drop_last(), item) {
            Some(i) => Some(i),
            None => if its.last().item == item {
                Some(its.len() - 1)
            } else {
                None
            },
        }
    }
}

/// The items after an event that names `item`: its row counts the event under its query,
/// semantic kind and domains.
pub open spec fn item_add(its: Seq<ItemRow>, item: Seq<char>, e: ChromeEvent) -> Seq<ItemRow> {
    let d = event_duration(e);
    match item_index(its, item) {
        Some(i) => its.update(
            i,
            ItemRow {
                item,
                total: its[i].total + d,
                queries: tally_add(its[i].queries, e.name@, d),
                semantics: tally_add_all(its[i].semantics, event_semantic_labels(e), d),
                domains: tally_add_all(its[i].domains, domain_labels(event_domains(e)), d),
            },
        ),
        None => its.push(
            ItemRow {
                item,
                total: d,
                queries: tally_add(Seq::empty(), e.name@, d),
                semantics: tally_add_all(Seq::empty(), event_semantic_labels(e), d),
                domains: tally_add_all(Seq::empty(), domain_labels(event_domains(e)), d),
            },
        ),
    }
}

/// The items the events name.
pub open spec fn items_after(es: Seq<ChromeEvent>) -> Seq<ItemRow>
    decreases es.len(),
{
    if es.len() == 0 {
        Seq::empty()
    } else {
        match event_item(es.last()) {
            Some(it) => item_add(items_after(es.drop_last()), it, es.last()),
            None => items_after(es.drop_last()),
        }
    }
}

/// A longest event as values.
pub struct LongestRow {
    pub name: Seq<char>,
    pub category: Seq<char>,
    pub total: nat,
    pub thread: Option<u64>,
    pub start: Option<u64>,
    pub arg0: Option<Seq<char>>,
}

impl View for ChromeLongestEvent {
    type V = LongestRow;

    open spec fn view(&self) -> LongestRow {
        LongestRow {
            name: self.name@,
            category: self.category@,
            total: self.total_us as nat,
            thread: self.thread_id,
            start: self.start_us,
            arg0: opt_text(self.arg0),
        }
    }
}

pub open spec fn longest_rows(v: Seq<ChromeLongestEvent>) -> Seq<LongestRow> {
    v.map_values(|l: ChromeLongestEvent| l@)
}

/// The record an event leaves among the longest events.
pub open spec fn longest_of(e: ChromeEvent) -> LongestRow {
    LongestRow {
        name: e.name@,
        category: event_category(e),
        total: event_duration(e),
        thread: e.tid,
        start: e.ts,
        arg0: opt_text(e.arg0),
    }
}

/// How many of the longest events a trace keeps.
pub open spec fn longest_keep() -> nat {
    20
}

/// `ks` picks the longest events of `es`: as many as are kept, each at most once, and none
/// left out lasted longer than one picked. Among events of equal duration which are picked is
/// left open.
pub open spec fn keeps_longest(es: Seq<ChromeEvent>, ks: Seq<int>) -> bool {
    &&& ks.len() == if es.len() < longest_keep() {
        es.len()
    } else {
        longest_keep()
    }
    &&& forall|a: int| 0 <= a < ks.len() ==> 0 <= #[trigger] ks[a] < es.len()
    &&& forall|a: int, b: int| 0 <= a < b < ks.len() ==> ks[a] != ks[b]
    &&& forall|a: int, i: int|
        0 <= a < ks.len() && 0 <= i < es.len() && !ks.contains(i) ==> event_duration(#[trigger] es[i])
            <= event_duration(es[#[trigger] ks[a]])
}

// ---------------------------------------------------------------------------
// Bounds: no figure exceeds the total duration or the number of events
// ---------------------------------------------------------------------------

proof fn lemma_domain_labels_injective(a: CargoProfileDomainKind, b: CargoProfileDomainKind)
    requires
        a != b,
    ensures
        domain_kind_label(a) != domain_kind_label(b),
{
    reveal_strlit("vm_state");
    reveal_strlit("run_vm");
    reveal_strlit("host_request");
    reveal_strlit("peano_nat");
    reveal_strlit("type_list");
    reveal_strlit("type_apply");
    assert(domain_kind_label(a).len() != domain_kind_label(b).len() || domain_kind_label(a)[0] != domain_kind_label(
        b,
    )[0] || domain_kind_label(a)[5] != domain_kind_label(b)[5]);
}

pub open spec fn domain_rank(k: CargoProfileDomainKind) -> int {
    match k {
        CargoProfileDomainKind::VmState => 0,
        CargoProfileDomainKind::RunVm => 1,
        CargoProfileDomainKind::HostRequest => 2,
        CargoProfileDomainKind::PeanoNat => 3,
        CargoProfileDomainKind::TypeList => 4,
        CargoProfileDomainKind::TypeApply => 5,
    }
}

spec fn ranks_increase(s: Seq<CargoProfileDomainKind>) -> bool {
    forall|i: int, j: int| 0 <= i < j < s.len() ==> domain_rank(s[i]) < domain_rank(s[j])
}

spec fn opt_kind(c: bool, k: CargoProfileDomainKind) -> Seq<CargoProfileDomainKind> {
    if c {
        seq![k]
    } else {
        Seq::empty()
    }
}

proof fn lemma_append_kind(s: Seq<CargoProfileDomainKind>, c: bool, k: CargoProfileDomainKind)
    requires
        ranks_increase(s),
        forall|i: int| 0 <= i < s.len() ==> domain_rank(s[i]) < domain_rank(k),
    ensures
        ranks_increase(s + opt_kind(c, k)),
        forall|i: int| 0 <= i < (s + opt_kind(c, k)).len() ==> domain_rank(#[trigger] (s + opt_kind(c, k))[i]) <= domain_rank(k),
{
}

proof fn lemma_domains_distinct(a: Seq<char>)
    ensures
        forall|i: int, j: int|
            0 <= i < j < domain_labels(domains_of(a)).len() ==> domain_labels(domains_of(a))[i] != domain_labels(
                domains_of(a),
            )[j],
{
    let e = Seq::<CargoProfileDomainKind>::empty();
    let c1 = crate::text::seq_contains(a, "VmState<"@);
    let c2 = crate::text::seq_contains(a, "RunVm<"@);
    let c3 = crate::text::seq_contains(a, "HostRequest<"@);
    let c4 = crate::text::seq_contains(a, "peano::Succ<"@) || crate::text::seq_contains(a, "UInt<"@)
        || crate::text::seq_contains(a, "UTerm"@);
    let c5 = crate::text::seq_contains(a, "TArr<"@) || crate::text::seq_contains(a, "Array<"@)
        || crate::text::seq_contains(a, "TTerm"@);
    let c6 = crate::text::seq_contains(a, "Apply<"@) || crate::text::seq_contains(a, "EApp<"@);
    let s1 = e + opt_kind(c1, CargoProfileDomainKind::VmState);
    lemma_append_kind(e, c1, CargoProfileDomainKind::VmState);
    lemma_append_kind(s1, c2, CargoProfileDomainKind::RunVm);
    let s2 = s1 + opt_kind(c2, CargoProfileDomainKind::RunVm);
    lemma_append_kind(s2, c3, CargoProfileDomainKind::HostRequest);
    let s3 = s2 + opt_kind(c3, CargoProfileDomainKind::HostRequest);
    lemma_append_kind(s3, c4, CargoProfileDomainKind::PeanoNat);
    let s4 = s3 + opt_kind(c4, CargoProfileDomainKind::PeanoNat);
    lemma_append_kind(s4, c5, CargoProfileDomainKind::TypeList);
    let s5 = s4 + opt_kind(c5, CargoProfileDomainKind::TypeList);
    lemma_append_kind(s5, c6, CargoProfileDomainKind::TypeApply);
    let s6 = s5 + opt_kind(c6, CargoProfileDomainKind::TypeApply);
    assert(s6 =~= domains_of(a));
    let ls = domain_labels(domains_of(a));
    assert forall|i: int, j: int| 0 <= i < j < ls.len() implies ls[i] != ls[j] by {
        lemma_domain_labels_injective(s6[i], s6[j]);
    }
}

proof fn lemma_one_label_distinct(l: Seq<char>)
    ensures
        forall|a: int, b: int| 0 <= a < b < seq![l].len() ==> seq![l][a] != seq![l][b],
{
}

/// Every figure the events count stays within their total duration and their number.
pub proof fn lemma_after_bounds(es: Seq<ChromeEvent>)
    ensures
        labels_distinct(categories_after(es)),
        tally_bounded(categories_after(es), total_of(es), es.len()),
        labels_distinct(threads_after(es)),
        tally_bounded(threads_after(es), total_of(es), es.len()),
        labels_distinct(semantics_after(es)),
        tally_bounded(semantics_after(es), total_of(es), es.len()),
        labels_distinct(domains_after(es)),
        tally_bounded(domains_after(es), total_of(es), es.len()),
        forall|i: int|
            0 <= i < queries_after(es).len() ==> (#[trigger] queries_after(es)[i]).total <= total_of(es)
                && queries_after(es)[i].count <= es.len(),
        forall|i: int|
            0 <= i < items_after(es).len() ==> (#[trigger] items_after(es)[i]).total <= total_of(es)
                && labels_distinct(items_after(es)[i].queries) && tally_bounded(
                items_after(es)[i].queries,
                total_of(es),
                es.len(),
            ) && labels_distinct(items_after(es)[i].semantics) && tally_bounded(
                items_after(es)[i].semantics,
                total_of(es),
                es.len(),
            ) && labels_distinct(items_after(es)[i].domains) && tally_bounded(
                items_after(es)[i].domains,
                total_of(es),
                es.len(),
            ),
    decreases es.len(),
{
    if es.len() > 0 {
        let p = es.drop_last();
        let e = es.last();
        let d = event_duration(e);
        lemma_after_bounds(p);
        lemma_tally_add(categories_after(p), event_category(e), d, total_of(p), p.len());
        lemma_tally_add(threads_after(p), event_thread(e), d, total_of(p), p.len());
        lemma_one_label_distinct(semantic_kind_label(semantic_kind_of(e.name@)));
        lemma_tally_add_all(semantics_after(p), event_semantic_labels(e), d, total_of(p), p.len());
        match e.arg0 {
            Some(a) => lemma_domains_distinct(a@),
            None => {},
        }
        assert(domain_labels(event_domains(e)).len() == 0 || e.arg0 is Some);
        lemma_tally_add_all(domains_after(p), domain_labels(event_domains(e)), d, total_of(p), p.len());
        let qs = queries_after(p);
        crate::chrome::lemma_query_index(qs, e.name@);
        let its = items_after(p);
        match event_item(e) {
            Some(it) => {
                lemma_item_index(its, it);
                assert forall|i: int| 0 <= i < items_after(es).len() implies (#[trigger] items_after(es)[i]).total
                    <= total_of(es) && labels_distinct(items_after(es)[i].queries) && tally_bounded(
                    items_after(es)[i].queries,
                    total_of(es),
                    es.len(),
                ) && labels_distinct(items_after(es)[i].semantics) && tally_bounded(
                    items_after(es)[i].semantics,
                    total_of(es),
                    es.len(),
                ) && labels_distinct(items_after(es)[i].domains) && tally_bounded(
                    items_after(es)[i].domains,
                    total_of(es),
                    es.len(),
                ) by {
                    let (q0, s0, d0) = match item_index(its, it) {
                        Some(k) => if k == i {
                            (its[k].queries, its[k].semantics, its[k].domains)
                        } else {
                            (Seq::empty(), Seq::empty(), Seq::empty())
                        },
                        None => (Seq::empty(), Seq::empty(), Seq::empty()),
                    };
                    if i < its.len() && item_index(its, it) != Some(i) {
                        assert(items_after(es)[i] == its[i]);
                        assert(tally_bounded(its[i].queries, total_of(p), p.len()));
                        assert(tally_bounded(its[i].semantics, total_of(p), p.len()));
                        assert(tally_bounded(its[i].domains, total_of(p), p.len()));
                    } else {
                        assert(labels_distinct(q0) && tally_bounded(q0, total_of(p), p.len()));
                        assert(labels_distinct(s0) && tally_bounded(s0, total_of(p), p.len()));
                        assert(labels_distinct(d0) && tally_bounded(d0, total_of(p), p.len()));
                        lemma_tally_add(q0, e.name@, d, total_of(p), p.len());
                        lemma_tally_add_all(s0, event_semantic_labels(e), d, total_of(p), p.len());
                        lemma_tally_add_all(d0, domain_labels(event_domains(e)), d, total_of(p), p.len());
                    }
                }
            },
            None => {},
        }
        assert forall|i: int| 0 <= i < categories_after(es).len() implies #[trigger] categories_after(es)[i].total
            <= total_of(es) && categories_after(es)[i].count <= es.len() by {}
    }
}

pub proof fn lemma_query_index(qs: Seq<QueryRow>, name: Seq<char>)
    ensures
        match query_index(qs, name) {
            Some(i) => 0 <= i < qs.len() && qs[i].name == name && forall|j: int| 0 <= j < i ==> qs[j].name != name,
            None => forall|j: int| 0 <= j < qs.len() ==> qs[j].name != name,
        },
    decreases qs.len(),
{
    if qs.len() > 0 {
        lemma_query_index(qs.drop_last(), name);
        assert(forall|j: int| 0 <= j < qs.len() - 1 ==> qs.drop_last()[j] == qs[j]);
    }
}

pub proof fn lemma_item_index(its: Seq<ItemRow>, item: Seq<char>)
    ensures
        match item_index(its, item) {
            Some(i) => 0 <= i < its.len() && its[i].item == item && forall|j: int| 0 <= j < i ==> its[j].item != item,
            None => forall|j: int| 0 <= j < its.len() ==> its[j].item != item,
        },
    decreases its.len(),
{
    if its.len() > 0 {
        lemma_item_index(its.drop_last(), item);
        assert(forall|j: int| 0 <= j < its.len() - 1 ==> its.drop_last()[j] == its[j]);
    }
}

// ---------------------------------------------------------------------------
// The tables a trace's analysis shows
// ---------------------------------------------------------------------------

/// How long a query's example argument may be in a report, in bytes.
pub open spec fn example_limit() -> nat {
    160
}

/// Queries rank by time, then count, then name.
pub open spec fn query_key(q: QueryRow) -> RankKeyView {
    RankKeyView { major: q.total as int, minor: q.count as int, label: q.name }
}

pub open spec fn query_keys(qs: Seq<QueryRow>) -> Seq<RankKeyView> {
    qs.map_values(|q: QueryRow| query_key(q))
}

/// A query as a report shows it: its example shortened.
pub open spec fn compacted(q: QueryRow) -> QueryRow {
    QueryRow {
        example: match q.example {
            Some(x) => Some(compact_spec(x, example_limit())),
            None => None,
        },
        ..q
    }
}

/// Every example can be shortened to the report's limit.
pub open spec fn examples_compactable(qs: Seq<QueryRow>) -> bool {
    forall|i: int|
        0 <= i < qs.len() && (#[trigger] qs[i]).example is Some ==> can_compact(qs[i].example->0, example_limit())
}

/// `r` holds the `top` queries of `qs` that took the most time, ranked, examples shortened.
pub open spec fn is_top_queries(r: Seq<QueryRow>, qs: Seq<QueryRow>, top: nat) -> bool {
    exists|p: Seq<int>|
        #[trigger] is_ranking(query_keys(qs), p) && r == pick(qs, p).take(kept(top, qs.len())).map_values(
            |q: QueryRow| compacted(q),
        )
}

/// Items rank by time, then name.
pub open spec fn item_key(r: ItemRow) -> RankKeyView {
    RankKeyView { major: r.total as int, minor: 0, label: r.item }
}

pub open spec fn item_keys(its: Seq<ItemRow>) -> Seq<RankKeyView> {
    its.map_values(|r: ItemRow| item_key(r))
}

/// How many rows each breakdown of an item keeps.
pub open spec fn breakdown_keep() -> nat {
    5
}

/// `r` reports item `src`: the same item and time, each breakdown cut to its top rows.
pub open spec fn is_item_summary(r: ItemRow, src: ItemRow) -> bool {
    &&& r.item == src.item
    &&& r.total == src.total
    &&& is_top_counts(r.queries, src.queries, breakdown_keep())
    &&& is_top_counts(r.semantics, src.semantics, breakdown_keep())
    &&& is_top_counts(r.domains, src.domains, breakdown_keep())
}

/// `r` reports the `top` items of `its` that took the most time, ranked.
pub open spec fn is_top_items(r: Seq<ItemRow>, its: Seq<ItemRow>, top: nat) -> bool {
    exists|p: Seq<int>|
        #[trigger] is_ranking(item_keys(its), p) && r.len() == kept(top, its.len()) && forall|a: int|
            0 <= a < r.len() ==> is_item_summary(#[trigger] r[a], its[p[a]])
}

/// The longest events rank by duration alone.
pub open spec fn longest_key(r: LongestRow) -> RankKeyView {
    RankKeyView { major: r.total as int, minor: 0, label: Seq::empty() }
}

pub open spec fn longest_keys(rs: Seq<LongestRow>) -> Seq<RankKeyView> {
    rs.map_values(|r: LongestRow| longest_key(r))
}

/// `r` lists, longest first, the `top` longest of the longest events kept from `es`.
pub open spec fn is_longest_events(r: Seq<LongestRow>, es: Seq<ChromeEvent>, top: nat) -> bool {
    exists|ks: Seq<int>, p: Seq<int>|
        #[trigger] keeps_longest(es, ks) && #[trigger] is_ranking(longest_keys(longest_picked(es, ks)), p) && r == pick(
            longest_picked(es, ks),
            p,
        ).take(kept(top, ks.len()))
}

// ---------------------------------------------------------------------------
// The running aggregate
// ---------------------------------------------------------------------------

fn clone_opt(o: &Option<String>) -> (r: Option<String>)
    ensures
        r == *o,
{
    match o {
        Some(s) => Some(s.clone()),
        None => None,
    }
}

/// `base` followed by those of `values` it does not hold yet (see [`extend_unique`]).
fn extend_unique_semantic(into: &mut Vec<CargoProfileSemanticKind>, values: &Vec<CargoProfileSemanticKind>)
    ensures
        final(into)@ == extend_unique(old(into)@, values@),
{
    let ghost base = into@;
    let mut i: usize = 0;
    assert(values@.take(0) =~= Seq::<CargoProfileSemanticKind>::empty());
    while i < values.len()
        invariant
            i <= values.len(),
            into@ == extend_unique(base, values@.take(i as int)),
        decreases values.len() - i,
    {
        let v = values[i];
        let mut found = false;
        let mut j: usize = 0;
        while j < into.len()
            invariant
                j <= into.len(),
                found == exists|k: int| 0 <= k < j && into@[k] == v,
            decreases into.len() - j,
        {
            if into[j] == v {
                found = true;
            }
            j += 1;
        }
        assert(values@.take(i + 1).drop_last() =~= values@.take(i as int));
        if !found {
            into.push(v);
        } else {
            proof {
                let k = choose|k: int| 0 <= k < into@.len() && into@[k] == v;
                assert(into@.contains(v));
            }
        }
        i += 1;
    }
    assert(values@.take(i as int) =~= values@);
}

/// `base` followed by those of `values` it does not hold yet (see [`extend_unique`]).
fn extend_unique_domain(into: &mut Vec<CargoProfileDomainKind>, values: &Vec<CargoProfileDomainKind>)
    ensures
        final(into)@ == extend_unique(old(into)@, values@),
{
    let ghost base = into@;
    let mut i: usize = 0;
    assert(values@.take(0) =~= Seq::<CargoProfileDomainKind>::empty());
    while i < values.len()
        invariant
            i <= values.len(),
            into@ == extend_unique(base, values@.take(i as int)),
        decreases values.len() - i,
    {
        let v = values[i];
        let mut found = false;
        let mut j: usize = 0;
        while j < into.len()
            invariant
                j <= into.len(),
                found == exists|k: int| 0 <= k < j && into@[k] == v,
            decreases into.len() - j,
        {
            if into[j] == v {
                found = true;
            }
            j += 1;
        }
        assert(values@.take(i + 1).drop_last() =~= values@.take(i as int));
        if !found {
            into.push(v);
        } else {
            proof {
                let k = choose|k: int| 0 <= k < into@.len() && into@[k] == v;
                assert(into@.contains(v));
            }
        }
        i += 1;
    }
    assert(values@.take(i as int) =~= values@);
}

/// Counts `d` microseconds under each of `labels` (see [`tally_add_all`]).
fn tally_add_labels(t: &mut Vec<DurationCount>, labels: &Vec<String>, d: u64)
    requires
        labels_distinct(count_rows(old(t)@)),
        forall|a: int, b: int| 0 <= a < b < labels.len() ==> labels@[a]@ != labels@[b]@,
        forall|i: int|
            0 <= i < old(t).len() ==> (#[trigger] old(t)@[i]).total_us + d <= u64::MAX && old(t)@[i].count < u64::MAX,
    ensures
        count_rows(final(t)@) == tally_add_all(count_rows(old(t)@), crate::text::texts(labels@), d as nat),
{
    let ghost base = count_rows(t@);
    let ghost orig = t@;
    let ghost ls = crate::text::texts(labels@);
    let mut i: usize = 0;
    assert(ls.take(0) =~= Seq::<Seq<char>>::empty());
    while i < labels.len()
        invariant
            i <= labels.len(),
            ls == crate::text::texts(labels@),
            base == count_rows(orig),
            labels_distinct(base),
            forall|a: int, b: int| 0 <= a < b < labels.len() ==> labels@[a]@ != labels@[b]@,
            forall|k: int| 0 <= k < orig.len() ==> (#[trigger] orig[k]).total_us + d <= u64::MAX && orig[k].count < u64::MAX,
            count_rows(t@) == tally_add_all(base, ls.take(i as int), d as nat),
        decreases labels.len() - i,
    {
        proof {
            let prev = ls.take(i as int);
            crate::tally::lemma_tally_add_all_rows(base, prev, d as nat);
            let r = count_rows(t@);
            assert forall|k: int| 0 <= k < t.len() && (#[trigger] t@[k]).label@ == labels@[i as int]@ implies t@[k].total_us
                + d <= u64::MAX && t@[k].count < u64::MAX by {
                assert(r[k].label == ls[i as int]);
                if k < base.len() {
                    if prev.contains(base[k].label) {
                        let a = choose|a: int| 0 <= a < prev.len() && prev[a] == base[k].label;
                        assert(labels@[a]@ == labels@[i as int]@);
                    }
                    assert(r[k] == base[k]);
                } else {
                    let a = choose|a: int| 0 <= a < prev.len() && prev[a] == r[k].label;
                    assert(labels@[a]@ == labels@[i as int]@);
                }
            }
        }
        tally_add_exec(t, labels[i].as_str(), d);
        assert(ls.take(i + 1).drop_last() =~= ls.take(i as int));
        i += 1;
    }
    assert(ls.take(i as int) =~= ls);
}

/// Counts a query event (see [`query_add`]).
fn query_add_exec(
    qs: &mut Vec<QueryHotspot>,
    e: &ChromeEvent,
    d: u64,
    sems: &Vec<CargoProfileSemanticKind>,
    doms: &Vec<CargoProfileDomainKind>,
)
    requires
        d == event_duration(*e),
        sems@ == seq![semantic_kind_of(e.name@)],
        doms@ == event_domains(*e),
        forall|i: int|
            0 <= i < old(qs).len() && (#[trigger] old(qs)@[i]).name@ == e.name@ ==> old(qs)@[i].total_us + d
                <= u64::MAX && old(qs)@[i].count < u64::MAX,
    ensures
        query_rows(final(qs)@) == query_add(query_rows(old(qs)@), *e),
{
    let ghost rows = query_rows(qs@);
    let mut i: usize = 0;
    while i < qs.len()
        invariant
            i <= qs.len(),
            rows == query_rows(qs@),
            rows == query_rows(old(qs)@),
            d == event_duration(*e),
            sems@ == seq![semantic_kind_of(e.name@)],
            doms@ == event_domains(*e),
            forall|j: int| 0 <= j < i ==> qs@[j].name@ != e.name@,
            forall|j: int|
                0 <= j < qs.len() && (#[trigger] qs@[j]).name@ == e.name@ ==> qs@[j].total_us + d <= u64::MAX
                    && qs@[j].count < u64::MAX,
        decreases qs.len() - i,
    {
        if crate::text::str_eq(qs[i].name.as_str(), e.name.as_str()) {
            proof {
                lemma_query_index(rows, e.name@);
                assert forall|j: int| 0 <= j < i implies rows[j].name != e.name@ by {
                    assert(rows[j] == qs@[j]@);
                }
                assert(rows[i as int].name == e.name@);
            }
            let ghost before = qs@;
            let mut q = qs.remove(i);
            let ghost q0 = q@;
            assert(q0 == rows[i as int]);
            q.total_us = q.total_us + d;
            q.count = q.count + 1;
            if q.max_us < d {
                q.max_us = d;
            }
            if q.example_arg0.is_none() {
                q.example_arg0 = clone_opt(&e.arg0);
            }
            let mut sk = q.semantic_kinds;
            extend_unique_semantic(&mut sk, sems);
            q.semantic_kinds = sk;
            let mut dk = q.domain_kinds;
            extend_unique_domain(&mut dk, doms);
            q.domain_kinds = dk;
            let ghost q1 = q@;
            assert(q1.total == q0.total + d);
            assert(q1.semantics == extend_unique(q0.semantics, seq![semantic_kind_of(e.name@)]));
            assert(q1.example == (if q0.example is None { opt_text(e.arg0) } else { q0.example }));
            assert(q1.name == e.name@);
            assert(q1 == (QueryRow {
                name: e.name@,
                total: q0.total + d as nat,
                count: q0.count + 1,
                max: if q0.max >= d {
                    q0.max
                } else {
                    d as nat
                },
                example: if q0.example is None {
                    opt_text(e.arg0)
                } else {
                    q0.example
                },
                semantics: extend_unique(q0.semantics, seq![semantic_kind_of(e.name@)]),
                domains: extend_unique(q0.domains, event_domains(*e)),
            }));
            qs.insert(i, q);
            assert(qs@ =~= before.update(i as int, q));
            assert(query_rows(qs@) =~= query_add(rows, *e));
            return ;
        }
        i += 1;
    }
    proof {
        lemma_query_index(rows, e.name@);
        assert forall|j: int| 0 <= j < rows.len() implies rows[j].name != e.name@ by {
            assert(rows[j] == qs@[j]@);
        }
    }
    let mut semantic_kinds: Vec<CargoProfileSemanticKind> = Vec::new();
    extend_unique_semantic(&mut semantic_kinds, sems);
    let mut domain_kinds: Vec<CargoProfileDomainKind> = Vec::new();
    extend_unique_domain(&mut domain_kinds, doms);
    qs.push(
        QueryHotspot {
            name: e.name.clone(),
            total_us: d,
            count: 1,
            max_us: d,
            example_arg0: clone_opt(&e.arg0),
            semantic_kinds,
            domain_kinds,
        },
    );
    assert(query_rows(qs@) =~= query_add(rows, *e));
}

/// Counts an event that names `item` (see [`item_add`]).
fn item_add_exec(
    its: &mut Vec<ItemHotspot>,
    item: String,
    e: &ChromeEvent,
    d: u64,
    sem_labels: &Vec<String>,
    dom_labels: &Vec<String>,
)
    requires
        d == event_duration(*e),
        crate::text::texts(sem_labels@) == event_semantic_labels(*e),
        crate::text::texts(dom_labels@) == domain_labels(event_domains(*e)),
        forall|a: int, b: int| 0 <= a < b < sem_labels.len() ==> sem_labels@[a]@ != sem_labels@[b]@,
        forall|a: int, b: int| 0 <= a < b < dom_labels.len() ==> dom_labels@[a]@ != dom_labels@[b]@,
        forall|i: int|
            0 <= i < old(its).len() && (#[trigger] old(its)@[i]).item@ == item@ ==> {
                let r = old(its)@[i]@;
                &&& r.total + d <= u64::MAX
                &&& labels_distinct(r.queries) && tally_bounded(r.queries, (u64::MAX - d) as nat, (u64::MAX - 1) as nat)
                &&& labels_distinct(r.semantics) && tally_bounded(r.semantics, (u64::MAX - d) as nat, (u64::MAX - 1) as nat)
                &&& labels_distinct(r.domains) && tally_bounded(r.domains, (u64::MAX - d) as nat, (u64::MAX - 1) as nat)
            },
    ensures
        item_rows(final(its)@) == item_add(item_rows(old(its)@), item@, *e),
{
    let ghost rows = item_rows(its@);
    let mut i: usize = 0;
    while i < its.len()
        invariant
            i <= its.len(),
            rows == item_rows(its@),
            rows == item_rows(old(its)@),
            its@ == old(its)@,
            d == event_duration(*e),
            crate::text::texts(sem_labels@) == event_semantic_labels(*e),
            crate::text::texts(dom_labels@) == domain_labels(event_domains(*e)),
            forall|a: int, b: int| 0 <= a < b < sem_labels.len() ==> sem_labels@[a]@ != sem_labels@[b]@,
            forall|a: int, b: int| 0 <= a < b < dom_labels.len() ==> dom_labels@[a]@ != dom_labels@[b]@,
            forall|j: int|
                0 <= j < old(its).len() && (#[trigger] old(its)@[j]).item@ == item@ ==> {
                    let r = old(its)@[j]@;
                    &&& r.total + d <= u64::MAX
                    &&& labels_distinct(r.queries) && tally_bounded(r.queries, (u64::MAX - d) as nat, (u64::MAX - 1) as nat)
                    &&& labels_distinct(r.semantics) && tally_bounded(r.semantics, (u64::MAX - d) as nat, (u64::MAX - 1) as nat)
                    &&& labels_distinct(r.domains) && tally_bounded(r.domains, (u64::MAX - d) as nat, (u64::MAX - 1) as nat)
                },
            forall|j: int| 0 <= j < i ==> its@[j].item@ != item@,
        decreases its.len() - i,
    {
        if crate::text::str_eq(its[i].item.as_str(), item.as_str()) {
            proof {
                lemma_item_index(rows, item@);
                assert forall|j: int| 0 <= j < i implies rows[j].item != item@ by {
                    assert(rows[j] == its@[j]@);
                }
                assert(rows[i as int].item == item@);
                assert(old(its)@[i as int].item@ == item@);
            }
            let ghost before = its@;
            let mut row = its.remove(i);
            let ghost r0 = row@;
            assert(r0 == rows[i as int]);
            assert(row == old(its)@[i as int]);
            assert(r0.item == item@);
            proof {
                assert forall|k: int| 0 <= k < row.query_breakdown.len() implies (#[trigger] row.query_breakdown@[k]).total_us
                    + d <= u64::MAX && row.query_breakdown@[k].count < u64::MAX by {
                    assert(r0.queries[k] == row.query_breakdown@[k]@);
                    assert(r0.queries[k].total <= (u64::MAX - d) as nat && r0.queries[k].count <= (u64::MAX - 1) as nat);
                }
                assert forall|k: int| 0 <= k < row.semantic_breakdown.len() implies (#[trigger] row.semantic_breakdown@[k]).total_us
                    + d <= u64::MAX && row.semantic_breakdown@[k].count < u64::MAX by {
                    assert(r0.semantics[k] == row.semantic_breakdown@[k]@);
                    assert(r0.semantics[k].total <= (u64::MAX - d) as nat && r0.semantics[k].count <= (u64::MAX - 1) as nat);
                }
                assert forall|k: int| 0 <= k < row.domain_breakdown.len() implies (#[trigger] row.domain_breakdown@[k]).total_us
                    + d <= u64::MAX && row.domain_breakdown@[k].count < u64::MAX by {
                    assert(r0.domains[k] == row.domain_breakdown@[k]@);
                    assert(r0.domains[k].total <= (u64::MAX - d) as nat && r0.domains[k].count <= (u64::MAX - 1) as nat);
                }
            }
            row.total_us = row.total_us + d;
            tally_add_exec(&mut row.query_breakdown, e.name.as_str(), d);
            tally_add_labels(&mut row.semantic_breakdown, sem_labels, d);
            tally_add_labels(&mut row.domain_breakdown, dom_labels, d);
            its.insert(i, row);
            assert(its@ =~= before.update(i as int, row));
            assert(item_rows(its@) =~= item_add(rows, item@, *e));
            return ;
        }
        i += 1;
    }
    proof {
        lemma_item_index(rows, item@);
        assert forall|j: int| 0 <= j < rows.len() implies rows[j].item != item@ by {
            assert(rows[j] == its@[j]@);
        }
    }
    let mut queries: Vec<DurationCount> = Vec::new();
    assert(count_rows(queries@) =~= Seq::<CountRow>::empty());
    tally_add_exec(&mut queries, e.name.as_str(), d);
    let mut semantics: Vec<DurationCount> = Vec::new();
    assert(count_rows(semantics@) =~= Seq::<CountRow>::empty());
    tally_add_labels(&mut semantics, sem_labels, d);
    let mut domains: Vec<DurationCount> = Vec::new();
    assert(count_rows(domains@) =~= Seq::<CountRow>::empty());
    tally_add_labels(&mut domains, dom_labels, d);
    its.push(
        ItemHotspot {
            item,
            total_us: d,
            query_breakdown: queries,
            semantic_breakdown: semantics,
            domain_breakdown: domains,
        },
    );
    assert(item_rows(its@) =~= item_add(rows, item@, *e));
}

/// The labels of semantic kinds.
fn semantic_label_texts(ks: &Vec<CargoProfileSemanticKind>) -> (r: Vec<String>)
    ensures
        crate::text::texts(r@) == crate::cargo_profile::semantic_labels(ks@),
{
    let mut r: Vec<String> = Vec::new();
    let mut i: usize = 0;
    while i < ks.len()
        invariant
            i <= ks.len(),
            crate::text::texts(r@) == crate::cargo_profile::semantic_labels(ks@.take(i as int)),
        decreases ks.len() - i,
    {
        r.push(crate::text::copy_str(ks[i].label()));
        assert(crate::cargo_profile::semantic_labels(ks@.take(i + 1)) =~= crate::cargo_profile::semantic_labels(
            ks@.take(i as int),
        ).push(semantic_kind_label(ks@[i as int])));
        assert(crate::text::texts(r@) =~= crate::text::texts(r@.drop_last()).push(r@.last()@));
        i += 1;
    }
    assert(ks@.take(i as int) =~= ks@);
    r
}

/// The labels of domain kinds.
fn domain_label_texts(ks: &Vec<CargoProfileDomainKind>) -> (r: Vec<String>)
    ensures
        crate::text::texts(r@) == domain_labels(ks@),
{
    let mut r: Vec<String> = Vec::new();
    let mut i: usize = 0;
    while i < ks.len()
        invariant
            i <= ks.len(),
            crate::text::texts(r@) == domain_labels(ks@.take(i as int)),
        decreases ks.len() - i,
    {
        r.push(crate::text::copy_str(ks[i].label()));
        assert(domain_labels(ks@.take(i + 1)) =~= domain_labels(ks@.take(i as int)).push(domain_kind_label(ks@[i as int])));
        assert(crate::text::texts(r@) =~= crate::text::texts(r@.drop_last()).push(r@.last()@));
        i += 1;
    }
    assert(ks@.take(i as int) =~= ks@);
    r
}

/// The records of the events `es` kept among the longest, at the positions `ks`.
pub open spec fn longest_picked(es: Seq<ChromeEvent>, ks: Seq<int>) -> Seq<LongestRow> {
    ks.map_values(|k: int| longest_of(es[k]))
}

/// The running aggregation of a chrome trace, and the events it has seen.
pub struct ChromeAggregate {
    event_count: u64,
    total_duration_us: u64,
    categories: Vec<DurationCount>,
    threads: Vec<DurationCount>,
    queries: Vec<QueryHotspot>,
    semantics: Vec<DurationCount>,
    domains: Vec<DurationCount>,
    items: Vec<ItemHotspot>,
    longest: Vec<ChromeLongestEvent>,
    seen: Ghost<Seq<ChromeEvent>>,
    kept: Ghost<Seq<int>>,
}

impl ChromeAggregate {
    /// The events aggregated so far, in order.
    pub closed spec fn seen(&self) -> Seq<ChromeEvent> {
        self.seen@
    }

    /// The positions, among the events seen, of the longest ones kept.
    pub closed spec fn kept(&self) -> Seq<int> {
        self.kept@
    }

    /// Every figure is the one the events seen give.
    pub closed spec fn wf(&self) -> bool {
        let es = self.seen@;
        &&& self.event_count == es.len()
        &&& self.total_duration_us == total_of(es)
        &&& count_rows(self.categories@) == categories_after(es)
        &&& count_rows(self.threads@) == threads_after(es)
        &&& count_rows(self.semantics@) == semantics_after(es)
        &&& count_rows(self.domains@) == domains_after(es)
        &&& query_rows(self.queries@) == queries_after(es)
        &&& item_rows(self.items@) == items_after(es)
        &&& keeps_longest(es, self.kept@)
        &&& es.len() <= longest_keep() ==> forall|a: int| 0 <= a < self.kept@.len() ==> #[trigger] self.kept@[a] == a
        &&& longest_rows(self.longest@) == longest_picked(es, self.kept@)
    }

    /// An aggregate that has seen no event.
    pub fn new() -> (r: Self)
        ensures
            r.wf(),
            r.seen() == Seq::<ChromeEvent>::empty(),
    {
        let r = ChromeAggregate {
            event_count: 0,
            total_duration_us: 0,
            categories: Vec::new(),
            threads: Vec::new(),
            queries: Vec::new(),
            semantics: Vec::new(),
            domains: Vec::new(),
            items: Vec::new(),
            longest: Vec::new(),
            seen: Ghost(Seq::empty()),
            kept: Ghost(Seq::empty()),
        };
        assert(count_rows(r.categories@) =~= Seq::<CountRow>::empty());
        assert(count_rows(r.threads@) =~= Seq::<CountRow>::empty());
        assert(count_rows(r.semantics@) =~= Seq::<CountRow>::empty());
        assert(count_rows(r.domains@) =~= Seq::<CountRow>::empty());
        assert(query_rows(r.queries@) =~= Seq::<QueryRow>::empty());
        assert(item_rows(r.items@) =~= Seq::<ItemRow>::empty());
        assert(longest_rows(r.longest@) =~= longest_picked(Seq::empty(), Seq::empty()));
        r
    }

    /// Counts one more event.
    pub fn observe(&mut self, event: ChromeEvent)
        requires
            old(self).wf(),
            total_of(old(self).seen()) + event_duration(event) <= u64::MAX,
            old(self).seen().len() < u64::MAX,
        ensures
            final(self).wf(),
            final(self).seen() == old(self).seen().push(event),
    {
        let ghost es = self.seen@;
        let ghost es2 = es.push(event);
        proof {
            lemma_after_bounds(es);
            assert(es2.drop_last() =~= es);
        }
        let duration: u64 = match event.dur {
            Some(d) => d,
            None => 0,
        };
        self.event_count = self.event_count + 1;
        self.total_duration_us = self.total_duration_us + duration;

        let category: String = match &event.cat {
            Some(c) => c.clone(),
            None => crate::text::copy_str("<none>"),
        };
        proof {
            assert(count_rows(self.categories@) == categories_after(es));
            assert(tally_bounded(categories_after(es), total_of(es), es.len()));
            assert forall|i: int| 0 <= i < self.categories.len() implies (#[trigger] self.categories@[i]).total_us + duration
                <= u64::MAX && self.categories@[i].count < u64::MAX by {
                assert(categories_after(es)[i] == self.categories@[i]@);
                crate::tally::lemma_row_bound(categories_after(es), total_of(es), es.len(), i);
            }
            assert forall|i: int| 0 <= i < self.threads.len() implies (#[trigger] self.threads@[i]).total_us + duration
                <= u64::MAX && self.threads@[i].count < u64::MAX by {
                assert(threads_after(es)[i] == self.threads@[i]@);
                crate::tally::lemma_row_bound(threads_after(es), total_of(es), es.len(), i);
            }
            assert forall|i: int| 0 <= i < self.semantics.len() implies (#[trigger] self.semantics@[i]).total_us + duration
                <= u64::MAX && self.semantics@[i].count < u64::MAX by {
                assert(semantics_after(es)[i] == self.semantics@[i]@);
                crate::tally::lemma_row_bound(semantics_after(es), total_of(es), es.len(), i);
            }
            assert forall|i: int| 0 <= i < self.domains.len() implies (#[trigger] self.domains@[i]).total_us + duration
                <= u64::MAX && self.domains@[i].count < u64::MAX by {
                assert(domains_after(es)[i] == self.domains@[i]@);
                crate::tally::lemma_row_bound(domains_after(es), total_of(es), es.len(), i);
            }
            assert forall|i: int| 0 <= i < self.queries.len() implies (#[trigger] self.queries@[i]).total_us + duration
                <= u64::MAX && self.queries@[i].count < u64::MAX by {
                assert(queries_after(es)[i] == self.queries@[i]@);
                assert(queries_after(es)[i].total <= total_of(es) && queries_after(es)[i].count <= es.len());
            }
        }
        tally_add_exec(&mut self.categories, category.as_str(), duration);
        let thread: String = match event.tid {
            Some(t) => crate::text::u64_text(t),
            None => crate::text::copy_str("<none>"),
        };
        tally_add_exec(&mut self.threads, thread.as_str(), duration);

        let sems = crate::cargo_profile::classify_semantics(event.name.as_str());
        let doms: Vec<CargoProfileDomainKind> = match &event.arg0 {
            Some(a) => crate::cargo_profile::detect_domains(a.as_str()),
            None => Vec::new(),
        };
        assert(doms@ == event_domains(event));
        if crate::text::str_eq(category.as_str(), "Query") {
            query_add_exec(&mut self.queries, &event, duration, &sems, &doms);
        }
        let sem_labels = semantic_label_texts(&sems);
        let dom_labels = domain_label_texts(&doms);
        proof {
            assert(crate::cargo_profile::semantic_labels(sems@) =~= event_semantic_labels(event));
            lemma_one_label_distinct(semantic_kind_label(semantic_kind_of(event.name@)));
            let ev = es2.last();
            match ev.arg0 {
                Some(a) => lemma_domains_distinct(a@),
                None => {},
            }
            assert forall|a: int, b: int| 0 <= a < b < sem_labels.len() implies sem_labels@[a]@ != sem_labels@[b]@ by {
                assert(crate::text::texts(sem_labels@)[a] == sem_labels@[a]@);
            }
            assert forall|a: int, b: int| 0 <= a < b < dom_labels.len() implies dom_labels@[a]@ != dom_labels@[b]@ by {
                assert(crate::text::texts(dom_labels@)[a] == dom_labels@[a]@);
                assert(crate::text::texts(dom_labels@)[b] == dom_labels@[b]@);
            }
        }
        tally_add_labels(&mut self.semantics, &sem_labels, duration);
        tally_add_labels(&mut self.domains, &dom_labels, duration);

        let item: Option<String> = match &event.arg0 {
            Some(a) => crate::cargo_profile::extract_item_label(a.as_str()),
            None => None,
        };
        match item {
            Some(it) => {
                proof {
                    assert(event_item(event) == Some(it@));
                    assert forall|j: int|
                        0 <= j < self.items.len() && (#[trigger] self.items@[j]).item@ == it@ implies {
                        let r = self.items@[j]@;
                        &&& r.total + duration <= u64::MAX
                        &&& labels_distinct(r.queries) && tally_bounded(r.queries, (u64::MAX - duration) as nat, (u64::MAX - 1) as nat)
                        &&& labels_distinct(r.semantics) && tally_bounded(r.semantics, (u64::MAX - duration) as nat, (u64::MAX - 1) as nat)
                        &&& labels_distinct(r.domains) && tally_bounded(r.domains, (u64::MAX - duration) as nat, (u64::MAX - 1) as nat)
                    } by {
                        let r = self.items@[j]@;
                        assert(items_after(es)[j] == r);
                        crate::tally::lemma_bounded_weaken(r.queries, total_of(es), es.len(), (u64::MAX - duration) as nat, (u64::MAX - 1) as nat);
                        crate::tally::lemma_bounded_weaken(r.semantics, total_of(es), es.len(), (u64::MAX - duration) as nat, (u64::MAX - 1) as nat);
                        crate::tally::lemma_bounded_weaken(r.domains, total_of(es), es.len(), (u64::MAX - duration) as nat, (u64::MAX - 1) as nat);
                    }
                }
                item_add_exec(&mut self.items, it, &event, duration, &sem_labels, &dom_labels);
            },
            None => {
                assert(event_item(event) is None);
            },
        }

        let record = ChromeLongestEvent {
            name: event.name.clone(),
            category,
            total_us: duration,
            thread_id: event.tid,
            start_us: event.ts,
            arg0: clone_opt(&event.arg0),
        };
        assert(record@ == longest_of(event));
        self.push_longest(record, Ghost(event));
        self.seen = Ghost(es2);
        proof {
            assert(es2.last() == event);
        }
    }

    /// Keeps `record` among the longest events, dropping one of the shortest when more than the
    /// kept number are held.
    fn push_longest(&mut self, record: ChromeLongestEvent, Ghost(event): Ghost<ChromeEvent>)
        requires
            keeps_longest(old(self).seen@, old(self).kept@),
            old(self).seen@.len() <= longest_keep() ==> forall|a: int|
                0 <= a < old(self).kept@.len() ==> #[trigger] old(self).kept@[a] == a,
            longest_rows(old(self).longest@) == longest_picked(old(self).seen@, old(self).kept@),
            record@ == longest_of(event),
        ensures
            keeps_longest(old(self).seen@.push(event), final(self).kept@),
            old(self).seen@.len() + 1 <= longest_keep() ==> forall|a: int|
                0 <= a < final(self).kept@.len() ==> #[trigger] final(self).kept@[a] == a,
            longest_rows(final(self).longest@) == longest_picked(old(self).seen@.push(event), final(self).kept@),
            final(self).seen@ == old(self).seen@,
            final(self).event_count == old(self).event_count,
            final(self).total_duration_us == old(self).total_duration_us,
            final(self).categories == old(self).categories,
            final(self).threads == old(self).threads,
            final(self).queries == old(self).queries,
            final(self).semantics == old(self).semantics,
            final(self).domains == old(self).domains,
            final(self).items == old(self).items,
    {
        let ghost es = self.seen@;
        let ghost es2 = es.push(event);
        let ghost n = es.len() as int;
        let ghost ks0 = self.kept@;
        let ghost l0 = self.longest@;
        assert(longest_rows(l0).len() == longest_picked(es, ks0).len());
        assert(l0.len() == ks0.len());
        self.longest.push(record);
        self.kept = Ghost(ks0.push(n));
        proof {
            let ks1 = self.kept@;
            assert forall|a: int| 0 <= a < ks1.len() implies longest_rows(self.longest@)[a] == longest_picked(es2, ks1)[a] by {
                assert(longest_rows(self.longest@)[a] == self.longest@[a]@);
                if a < ks0.len() {
                    assert(0 <= ks0[a] < n);
                    assert(es2[ks0[a]] == es[ks0[a]]);
                    assert(longest_rows(l0)[a] == l0[a]@);
                    assert(longest_picked(es, ks0)[a] == longest_of(es[ks0[a]]));
                } else {
                    assert(es2[n] == event);
                }
            }
            assert(longest_rows(self.longest@) =~= longest_picked(es2, self.kept@));
        }
        if self.longest.len() > 20 {
            let mut m: usize = 0;
            let mut j: usize = 1;
            while j < self.longest.len()
                invariant
                    1 <= j <= self.longest.len(),
                    m < j,
                    forall|a: int| 0 <= a < j ==> self.longest@[m as int].total_us <= (#[trigger] self.longest@[a]).total_us,
                decreases self.longest.len() - j,
            {
                if self.longest[j].total_us < self.longest[m].total_us {
                    m = j;
                }
                j += 1;
            }
            let ghost ks1 = self.kept@;
            let ghost rows1 = longest_rows(self.longest@);
            proof {
                assert forall|a: int| 0 <= a < ks1.len() implies event_duration(es2[ks1[m as int]]) <= event_duration(
                    #[trigger] es2[ks1[a]],
                ) by {
                    assert(rows1[a] == longest_of(es2[ks1[a]]));
                    assert(rows1[m as int] == longest_of(es2[ks1[m as int]]));
                    assert(rows1[a] == self.longest@[a]@);
                    assert(rows1[m as int] == self.longest@[m as int]@);
                }
            }
            self.longest.remove(m);
            self.kept = Ghost(ks1.remove(m as int));
            proof {
                let ks2 = self.kept@;
                let dropped = ks1[m as int];
                assert forall|a: int| 0 <= a < ks2.len() implies longest_rows(self.longest@)[a] == longest_picked(es2, ks2)[a] by {
                    let b = if a < m { a } else { a + 1 };
                    assert(longest_rows(self.longest@)[a] == self.longest@[a]@);
                    assert(rows1[b] == longest_picked(es2, ks1)[b]);
                }
                assert(longest_rows(self.longest@) =~= longest_picked(es2, ks2));
                assert forall|a: int, i: int|
                    0 <= a < ks2.len() && 0 <= i < es2.len() && !ks2.contains(i) implies event_duration(#[trigger] es2[i])
                        <= event_duration(es2[#[trigger] ks2[a]]) by {
                    let b = if a < m { a } else { a + 1 };
                    assert(ks2[a] == ks1[b]);
                    if i == dropped {
                    } else if i == n {
                        assert(ks1[ks0.len() as int] == n);
                        if ks0.len() as int == m as int {
                            assert(i == dropped);
                        } else {
                            let c = if ks0.len() < m { ks0.len() as int } else { ks0.len() - 1 };
                            assert(ks2[c] == n);
                        }
                    } else {
                        assert(!ks0.contains(i)) by {
                            if ks0.contains(i) {
                                let c = choose|c: int| 0 <= c < ks0.len() && ks0[c] == i;
                                assert(ks1[c] == i);
                                if c < m {
                                    assert(ks2[c] == i);
                                } else {
                                    assert(c != m);
                                    assert(ks2[c - 1] == i);
                                }
                            }
                        }
                        assert(es2[i] == es[i]);
                        if n > 0 {
                            if dropped < n {
                                let c = choose|c: int| 0 <= c < ks0.len() && ks0[c] == dropped;
                                assert(ks1[c] == dropped);
                                assert(event_duration(es[i]) <= event_duration(es[ks0[c]]));
                            } else {
                                assert(dropped == n);
                                if ks2[a] == n {
                                } else {
                                    let c = choose|c: int| 0 <= c < ks0.len() && ks0[c] == ks2[a];
                                    assert(ks1[c] == ks2[a]);
                                    assert(event_duration(es[i]) <= event_duration(es[ks0[c]]));
                                }
                            }
                        }
                    }
                }
                assert forall|a: int, b: int| 0 <= a < b < ks2.len() implies ks2[a] != ks2[b] by {
                    let a1 = if a < m { a } else { a + 1 };
                    let b1 = if b < m { b } else { b + 1 };
                    assert(ks1[a1] != ks1[b1]);
                }
            }
        } else {
            proof {
                let ks1 = self.kept@;
                assert forall|a: int, b: int| 0 <= a < b < ks1.len() implies ks1[a] != ks1[b] by {}
                assert(ks0.len() == n);
                assert forall|a: int, i: int|
                    0 <= a < ks1.len() && 0 <= i < es2.len() && !ks1.contains(i) implies event_duration(#[trigger] es2[i])
                        <= event_duration(es2[#[trigger] ks1[a]]) by {
                    if i < n {
                        assert(ks1[i] == i);
                    } else {
                        assert(ks1[n] == n);
                    }
                }
            }
        }
    }
}

/// The `top` queries that took the most time, examples shortened (see [`is_top_queries`]).
fn top_queries(input: Vec<QueryHotspot>, top: usize) -> (r: Vec<QueryHotspot>)
    requires
        examples_compactable(query_rows(input@)),
    ensures
        is_top_queries(query_rows(r@), query_rows(input@), top as nat),
{
    let ghost qs = query_rows(input@);
    let mut keys: Vec<RankKey> = Vec::new();
    let mut i: usize = 0;
    while i < input.len()
        invariant
            i <= input.len(),
            qs == query_rows(input@),
            keys.len() == i,
            forall|j: int| 0 <= j < i ==> (#[trigger] keys@[j])@ == query_key(qs[j]),
        decreases input.len() - i,
    {
        keys.push(RankKey { major: input[i].total_us, minor: input[i].count, label: input[i].name.clone() });
        i += 1;
    }
    let p = rank_order(&keys);
    assert(key_views(keys@) =~= query_keys(qs));
    let n = if top < p.len() {
        top
    } else {
        p.len()
    };
    let mut r: Vec<QueryHotspot> = Vec::new();
    let mut j: usize = 0;
    while j < n
        invariant
            j <= n <= p.len(),
            p.len() == input.len(),
            qs == query_rows(input@),
            examples_compactable(qs),
            is_ranking(query_keys(qs), as_ints(p@)),
            query_rows(r@) == pick(qs, as_ints(p@)).take(j as int).map_values(|q: QueryRow| compacted(q)),
        decreases n - j,
    {
        let k = p[j];
        assert(0 <= as_ints(p@)[j as int] < qs.len());
        let src = &input[k];
        assert(qs[k as int] == src@);
        let example = match &src.example_arg0 {
            Some(a) => {
                assert(qs[k as int].example is Some);
                Some(crate::tally::compact_text(a.as_str(), 160))
            },
            None => None,
        };
        let row = QueryHotspot {
            name: src.name.clone(),
            total_us: src.total_us,
            count: src.count,
            max_us: src.max_us,
            example_arg0: example,
            semantic_kinds: src.semantic_kinds.clone(),
            domain_kinds: src.domain_kinds.clone(),
        };
        let ghost before = r@;
        r.push(row);
        proof {
            let ps = as_ints(p@);
            assert(row@ == compacted(qs[ps[j as int]]));
            assert(pick(qs, ps)[j as int] == qs[ps[j as int]]);
            assert(pick(qs, ps).take(j + 1) =~= pick(qs, ps).take(j as int).push(pick(qs, ps)[j as int]));
            assert(query_rows(r@) =~= query_rows(before).push(row@));
            assert(pick(qs, ps).take(j + 1).map_values(|q: QueryRow| compacted(q)) =~= pick(qs, ps).take(
                j as int,
            ).map_values(|q: QueryRow| compacted(q)).push(compacted(pick(qs, ps)[j as int])));
        }
        j += 1;
    }
    r
}

/// The `top` items that took the most time, each breakdown cut to its top rows (see
/// [`is_top_items`]).
fn top_items(input: Vec<ItemHotspot>, top: usize) -> (r: Vec<ItemHotspot>)
    ensures
        is_top_items(item_rows(r@), item_rows(input@), top as nat),
{
    let ghost its = item_rows(input@);
    let mut keys: Vec<RankKey> = Vec::new();
    let mut i: usize = 0;
    while i < input.len()
        invariant
            i <= input.len(),
            its == item_rows(input@),
            keys.len() == i,
            forall|j: int| 0 <= j < i ==> (#[trigger] keys@[j])@ == item_key(its[j]),
        decreases input.len() - i,
    {
        keys.push(RankKey { major: input[i].total_us, minor: 0, label: input[i].item.clone() });
        i += 1;
    }
    let p = rank_order(&keys);
    assert(key_views(keys@) =~= item_keys(its));
    let n = if top < p.len() {
        top
    } else {
        p.len()
    };
    let mut r: Vec<ItemHotspot> = Vec::new();
    let mut j: usize = 0;
    while j < n
        invariant
            j <= n <= p.len(),
            p.len() == input.len(),
            its == item_rows(input@),
            is_ranking(item_keys(its), as_ints(p@)),
            r.len() == j,
            forall|a: int| 0 <= a < j ==> is_item_summary(#[trigger] item_rows(r@)[a], its[as_ints(p@)[a]]),
        decreases n - j,
    {
        let k = p[j];
        assert(0 <= as_ints(p@)[j as int] < its.len());
        let src = &input[k];
        assert(its[k as int] == src@);
        let row = ItemHotspot {
            item: src.item.clone(),
            total_us: src.total_us,
            query_breakdown: crate::tally::top_count_map(&src.query_breakdown, 5),
            semantic_breakdown: crate::tally::top_count_map(&src.semantic_breakdown, 5),
            domain_breakdown: crate::tally::top_count_map(&src.domain_breakdown, 5),
        };
        let ghost before = r@;
        r.push(row);
        proof {
            assert forall|a: int| 0 <= a < j + 1 implies is_item_summary(#[trigger] item_rows(r@)[a], its[as_ints(p@)[a]]) by {
                if a < j {
                    assert(item_rows(r@)[a] == item_rows(before)[a]);
                } else {
                    assert(item_rows(r@)[a] == row@);
                }
            }
        }
        j += 1;
    }
    r
}

/// The longest events kept, longest first, at most `top` of them.
fn top_longest(input: &Vec<ChromeLongestEvent>, top: usize) -> (r: Vec<ChromeLongestEvent>)
    ensures
        exists|p: Seq<int>|
            #[trigger] is_ranking(longest_keys(longest_rows(input@)), p) && longest_rows(r@) == pick(
                longest_rows(input@),
                p,
            ).take(kept(top as nat, input.len() as nat)),
{
    let ghost ls = longest_rows(input@);
    let mut keys: Vec<RankKey> = Vec::new();
    let mut i: usize = 0;
    while i < input.len()
        invariant
            i <= input.len(),
            ls == longest_rows(input@),
            keys.len() == i,
            forall|j: int| 0 <= j < i ==> (#[trigger] keys@[j])@ == longest_key(ls[j]),
        decreases input.len() - i,
    {
        keys.push(RankKey { major: input[i].total_us, minor: 0, label: String::new() });
        i += 1;
    }
    let p = rank_order(&keys);
    assert(key_views(keys@) =~= longest_keys(ls));
    let n = if top < p.len() {
        top
    } else {
        p.len()
    };
    let mut r: Vec<ChromeLongestEvent> = Vec::new();
    let mut j: usize = 0;
    while j < n
        invariant
            j <= n <= p.len(),
            p.len() == input.len(),
            ls == longest_rows(input@),
            is_ranking(longest_keys(ls), as_ints(p@)),
            longest_rows(r@) == pick(ls, as_ints(p@)).take(j as int),
        decreases n - j,
    {
        let k = p[j];
        assert(0 <= as_ints(p@)[j as int] < ls.len());
        let src = &input[k];
        assert(ls[k as int] == src@);
        let row = ChromeLongestEvent {
            name: src.name.clone(),
            category: src.category.clone(),
            total_us: src.total_us,
            thread_id: src.thread_id,
            start_us: src.start_us,
            arg0: clone_opt(&src.arg0),
        };
        let ghost before = r@;
        r.push(row);
        proof {
            let ps = as_ints(p@);
            assert(pick(ls, ps)[j as int] == ls[ps[j as int]]);
            assert(pick(ls, ps).take(j + 1) =~= pick(ls, ps).take(j as int).push(pick(ls, ps)[j as int]));
            assert(longest_rows(r@) =~= longest_rows(before).push(row@));
        }
        j += 1;
    }
    r
}

/// `a` is the analysis of the events `es`, its tables cut to `top` rows.
pub open spec fn is_chrome_analysis(a: ChromeProfileAnalysis, es: Seq<ChromeEvent>, top: nat) -> bool {
    &&& a.event_count == es.len()
    &&& a.total_duration_us == total_of(es)
    &&& is_top_counts(count_rows(a.category_breakdown@), categories_after(es), top)
    &&& is_top_counts(count_rows(a.thread_breakdown@), threads_after(es), top)
    &&& is_top_queries(query_rows(a.query_hotspots@), queries_after(es), top)
    &&& is_top_counts(count_rows(a.semantic_hotspots@), semantics_after(es), top)
    &&& is_top_counts(count_rows(a.domain_hotspots@), domains_after(es), top)
    &&& is_top_items(item_rows(a.item_hotspots@), items_after(es), top)
    &&& is_longest_events(longest_rows(a.longest_events@), es, top)
}

impl ChromeAggregate {
    /// Whether every query's example can be shortened for the report.
    pub fn examples_fit(&self) -> (b: bool)
        requires
            self.wf(),
        ensures
            b == examples_compactable(queries_after(self.seen())),
    {
        let mut i: usize = 0;
        while i < self.queries.len()
            invariant
                i <= self.queries.len(),
                query_rows(self.queries@) == queries_after(self.seen@),
                forall|j: int|
                    0 <= j < i && (#[trigger] self.queries@[j]).example_arg0 is Some ==> can_compact(
                        self.queries@[j].example_arg0->0@,
                        example_limit(),
                    ),
            decreases self.queries.len() - i,
        {
            assert(query_rows(self.queries@)[i as int] == self.queries@[i as int]@);
            match &self.queries[i].example_arg0 {
                Some(a) => {
                    if !crate::tally::can_compact_text(a.as_str(), 160) {
                        assert(!examples_compactable(queries_after(self.seen@)));
                        return false;
                    }
                },
                None => {},
            }
            i += 1;
        }
        assert forall|j: int|
            0 <= j < queries_after(self.seen@).len() && (#[trigger] queries_after(self.seen@)[j]).example is Some implies can_compact(
            queries_after(self.seen@)[j].example->0,
            example_limit(),
        ) by {
            assert(query_rows(self.queries@)[j] == self.queries@[j]@);
        }
        true
    }

    /// The analysis of the events seen, its tables cut to `top` rows.
    pub fn finish(self, top: usize) -> (r: ChromeProfileAnalysis)
        requires
            self.wf(),
            examples_compactable(queries_after(self.seen())),
        ensures
            is_chrome_analysis(r, self.seen(), top as nat),
    {
        let ghost es = self.seen@;
        let longest_events = top_longest(&self.longest, top);
        proof {
            let ks = self.kept@;
            assert(longest_rows(self.longest@).len() == ks.len());
        }
        ChromeProfileAnalysis {
            event_count: self.event_count,
            total_duration_us: self.total_duration_us,
            category_breakdown: crate::tally::top_count_map(&self.categories, top),
            thread_breakdown: crate::tally::top_count_map(&self.threads, top),
            query_hotspots: top_queries(self.queries, top),
            semantic_hotspots: crate::tally::top_count_map(&self.semantics, top),
            domain_hotspots: crate::tally::top_count_map(&self.domains, top),
            item_hotspots: top_items(self.items, top),
            longest_events,
        }
    }
}

/// The analysis of a chrome trace's events, its tables cut to `top` rows; `None` where the
/// durations add up to more than a `u64` holds or a query's example cannot be cut to the
/// report's limit on a character boundary.
pub fn analyze_chrome_events(events: &Vec<ChromeEvent>, top: usize) -> (r: Option<ChromeProfileAnalysis>)
    ensures
        r is None <==> (total_of(events@) > u64::MAX || !examples_compactable(queries_after(events@))),
        r matches Some(a) ==> is_chrome_analysis(a, events@, top as nat),
{
    let mut total: u64 = 0;
    let mut i: usize = 0;
    assert(events@.take(0) =~= Seq::<ChromeEvent>::empty());
    while i < events.len()
        invariant
            i <= events.len(),
            total == total_of(events@.take(i as int)),
        decreases events.len() - i,
    {
        let d: u64 = match events[i].dur {
            Some(d) => d,
            None => 0,
        };
        assert(events@.take(i + 1).drop_last() =~= events@.take(i as int));
        match total.checked_add(d) {
            Some(t) => {
                total = t;
            },
            None => {
                proof {
                    lemma_total_of_prefix(events@, i + 1);
                }
                return None;
            },
        }
        i += 1;
    }
    assert(events@.take(i as int) =~= events@);
    let mut agg = ChromeAggregate::new();
    let mut j: usize = 0;
    while j < events.len()
        invariant
            j <= events.len(),
            agg.wf(),
            agg.seen() == events@.take(j as int),
            total_of(events@) <= u64::MAX,
        decreases events.len() - j,
    {
        proof {
            lemma_total_of_prefix(events@, j + 1);
            assert(events@.take(j + 1).drop_last() =~= events@.take(j as int));
        }
        agg.observe(events[j].clone_event());
        assert(events@.take(j + 1) =~= events@.take(j as int).push(events@[j as int]));
        j += 1;
    }
    assert(events@.take(j as int) =~= events@);
    if !agg.examples_fit() {
        return None;
    }
    Some(agg.finish(top))
}

/// The total of a prefix of the events is at most the total of all.
proof fn lemma_total_of_prefix(es: Seq<ChromeEvent>, n: int)
    requires
        0 <= n <= es.len(),
    ensures
        total_of(es.take(n)) <= total_of(es),
    decreases es.len() - n,
{
    if n < es.len() {
        lemma_total_of_prefix(es, n + 1);
        assert(es.take(n + 1).drop_last() =~= es.take(n));
    }
}

impl ChromeEvent {
    /// A copy of the event.
    pub fn clone_event(&self) -> (r: ChromeEvent)
        ensures
            r == *self,
    {
        ChromeEvent {
            name: self.name.clone(),
            cat: clone_opt(&self.cat),
            ts: self.ts,
            dur: self.dur,
            tid: self.tid,
            arg0: clone_opt(&self.arg0),
        }
    }
}


/// Every event counts once towards the category table and once towards the thread table:
/// their counts add up to the number of events and their times to the total duration.
pub proof fn category_and_thread_tables_count_each_event_once(es: Seq<ChromeEvent>)
    ensures
        crate::tally::tally_count(categories_after(es)) == es.len(),
        crate::tally::tally_total(categories_after(es)) == total_of(es),
        crate::tally::tally_count(threads_after(es)) == es.len(),
        crate::tally::tally_total(threads_after(es)) == total_of(es),
    decreases es.len(),
{
    if es.len() > 0 {
        let p = es.drop_last();
        category_and_thread_tables_count_each_event_once(p);
        crate::tally::tally_add_counts_once(categories_after(p), event_category(es.last()), event_duration(es.last()));
        crate::tally::tally_add_counts_once(threads_after(p), event_thread(es.last()), event_duration(es.last()));
    }
}

} // verus!
