//! Tallies of time by label, and the shortening of long texts for a report.
use vstd::prelude::*;

use crate::cargo_profile::DurationCount;
use crate::rank::{RankKey, RankKeyView, as_ints, is_ranking, key_views, pick, rank_order};

verus! {

broadcast use vstd::seq_lib::group_seq_properties;

/// A row of a tally as values: a label, the time counted under it and how many times.
pub struct CountRow {
    pub label: Seq<char>,
    pub total: nat,
    pub count: nat,
}

impl View for DurationCount {
    type V = CountRow;

    open spec fn view(&self) -> CountRow {
        CountRow { label: self.label@, total: self.total_us as nat, count: self.count as nat }
    }
}

pub open spec fn count_rows(v: Seq<DurationCount>) -> Seq<CountRow> {
    v.map_values(|d: DurationCount| d@)
}

/// The position of the first row labelled `label`.
pub open spec fn row_index(t: Seq<CountRow>, label: Seq<char>) -> Option<int>
    decreases t.len(),
{
    if t.len() == 0 {
        None
    } else {
        match row_index(t.drop_last(), label) {
            Some(i) => Some(i),
            None => if t.last().label == label {
                Some(t.len() - 1)
            } else {
                None
            },
        }
    }
}

/// `t` after counting `d` microseconds under `label`: the row of that label grows, or a new
/// row comes last.
pub open spec fn tally_add(t: Seq<CountRow>, label: Seq<char>, d: nat) -> Seq<CountRow> {
    match row_index(t, label) {
        Some(i) => t.update(i, CountRow { label, total: t[i].total + d, count: t[i].count + 1 }),
        None => t.push(CountRow { label, total: d, count: 1 }),
    }
}

/// `t` after counting `d` microseconds under each of `labels`, in order.
pub open spec fn tally_add_all(t: Seq<CountRow>, labels: Seq<Seq<char>>, d: nat) -> Seq<CountRow>
    decreases labels.len(),
{
    if labels.len() == 0 {
        t
    } else {
        tally_add(tally_add_all(t, labels.drop_last(), d), labels.last(), d)
    }
}

/// No two rows have the same label.
pub open spec fn labels_distinct(t: Seq<CountRow>) -> bool {
    forall|i: int, j: int| 0 <= i < j < t.len() ==> t[i].label != t[j].label
}

/// Every row counts at most `total` microseconds over at most `count` events.
pub open spec fn tally_bounded(t: Seq<CountRow>, total: nat, count: nat) -> bool {
    forall|i: int| #![trigger t[i]] 0 <= i < t.len() ==> t[i].total <= total && t[i].count <= count
}

pub proof fn lemma_row_index(t: Seq<CountRow>, label: Seq<char>)
    ensures
        match row_index(t, label) {
            Some(i) => 0 <= i < t.len() && t[i].label == label && forall|j: int|
                0 <= j < i ==> t[j].label != label,
            None => forall|j: int| 0 <= j < t.len() ==> t[j].label != label,
        },
    decreases t.len(),
{
    if t.len() > 0 {
        lemma_row_index(t.drop_last(), label);
        assert(forall|j: int| 0 <= j < t.len() - 1 ==> t.drop_last()[j] == t[j]);
    }
}

pub proof fn lemma_tally_add(t: Seq<CountRow>, label: Seq<char>, d: nat, total: nat, count: nat)
    requires
        labels_distinct(t),
        tally_bounded(t, total, count),
    ensures
        labels_distinct(tally_add(t, label, d)),
        tally_bounded(tally_add(t, label, d), total + d, count + 1),
        tally_add(t, label, d).len() >= t.len(),
        forall|j: int| 0 <= j < t.len() ==> (#[trigger] tally_add(t, label, d)[j]).label == t[j].label,
{
    lemma_row_index(t, label);
}

pub proof fn lemma_tally_add_all_rows(t: Seq<CountRow>, labels: Seq<Seq<char>>, d: nat)
    requires
        labels_distinct(t),
        forall|a: int, b: int| 0 <= a < b < labels.len() ==> labels[a] != labels[b],
    ensures
        ({
            let r = tally_add_all(t, labels, d);
            &&& labels_distinct(r)
            &&& r.len() >= t.len()
            &&& forall|j: int|
                0 <= j < t.len() ==> (#[trigger] r[j]).label == t[j].label && r[j].total <= t[j].total + d
                    && r[j].count <= t[j].count + 1 && (!labels.contains(t[j].label) ==> r[j] == t[j])
            &&& forall|j: int|
                t.len() <= j < r.len() ==> (#[trigger] r[j]).total == d && r[j].count == 1 && labels.contains(
                    r[j].label,
                )
        }),
    decreases labels.len(),
{
    if labels.len() > 0 {
        let prev = labels.drop_last();
        lemma_tally_add_all_rows(t, prev, d);
        let r0 = tally_add_all(t, prev, d);
        let l = labels.last();
        lemma_row_index(r0, l);
        assert(!prev.contains(l)) by {
            if prev.contains(l) {
                let a = choose|a: int| 0 <= a < prev.len() && prev[a] == l;
                assert(labels[a] == labels[labels.len() - 1]);
            }
        }
        let r = tally_add_all(t, labels, d);
        assert(r == tally_add(r0, l, d));
        assert forall|j: int| 0 <= j < t.len() implies (!labels.contains(t[j].label) ==> #[trigger] r[j] == t[j]) by {
            if !labels.contains(t[j].label) {
                assert(!prev.contains(t[j].label)) by {
                    if prev.contains(t[j].label) {
                        let a = choose|a: int| 0 <= a < prev.len() && prev[a] == t[j].label;
                        assert(labels[a] == prev[a]);
                    }
                }
                assert(t[j].label != l);
            }
        }
        assert forall|j: int| t.len() <= j < r.len() implies labels.contains((#[trigger] r[j]).label) by {
            if j < r0.len() {
                let a = choose|a: int| 0 <= a < prev.len() && prev[a] == r0[j].label;
                assert(labels[a] == prev[a]);
            } else {
                assert(labels[labels.len() - 1] == l);
            }
        }
        match row_index(r0, l) {
            Some(i) => {
                if i >= t.len() {
                    assert(prev.contains(r0[i].label));
                }
            },
            None => {},
        }
    }
}

pub proof fn lemma_tally_add_all(t: Seq<CountRow>, labels: Seq<Seq<char>>, d: nat, total: nat, count: nat)
    requires
        labels_distinct(t),
        tally_bounded(t, total, count),
        forall|a: int, b: int| 0 <= a < b < labels.len() ==> labels[a] != labels[b],
    ensures
        labels_distinct(tally_add_all(t, labels, d)),
        tally_bounded(tally_add_all(t, labels, d), total + d, count + 1),
{
    lemma_tally_add_all_rows(t, labels, d);
    let r = tally_add_all(t, labels, d);
    assert forall|j: int| 0 <= j < r.len() implies #[trigger] r[j].total <= total + d && r[j].count <= count + 1 by {
        if j < t.len() {
            assert(t[j].total <= total);
        }
    }
}

pub proof fn lemma_row_bound(t: Seq<CountRow>, total: nat, count: nat, i: int)
    requires
        tally_bounded(t, total, count),
        0 <= i < t.len(),
    ensures
        t[i].total <= total,
        t[i].count <= count,
{
}

pub proof fn lemma_bounded_weaken(t: Seq<CountRow>, total: nat, count: nat, total2: nat, count2: nat)
    requires
        tally_bounded(t, total, count),
        total <= total2,
        count <= count2,
    ensures
        tally_bounded(t, total2, count2),
{
}

/// Counts `d` microseconds under `label` (see [`tally_add`]).
pub fn tally_add_exec(t: &mut Vec<DurationCount>, label: &str, d: u64)
    requires
        forall|i: int|
            0 <= i < old(t).len() && (#[trigger] old(t)@[i]).label@ == label@ ==> old(t)@[i].total_us + d <= u64::MAX
                && old(t)@[i].count < u64::MAX,
    ensures
        count_rows(final(t)@) == tally_add(count_rows(old(t)@), label@, d as nat),
{
    let ghost rows = count_rows(t@);
    proof {
        lemma_row_index(rows, label@);
    }
    let mut i: usize = 0;
    while i < t.len()
        invariant
            i <= t.len(),
            rows == count_rows(t@),
            rows == count_rows(old(t)@),
            forall|j: int| 0 <= j < i ==> t@[j].label@ != label@,
            forall|j: int|
                0 <= j < t.len() && (#[trigger] t@[j]).label@ == label@ ==> t@[j].total_us + d <= u64::MAX && t@[j].count
                    < u64::MAX,
        decreases t.len() - i,
    {
        if crate::text::str_eq(t[i].label.as_str(), label) {
            proof {
                lemma_row_index(rows, label@);
                assert forall|j: int| 0 <= j < i implies rows[j].label != label@ by {
                    assert(rows[j] == t@[j]@);
                }
                match row_index(rows, label@) {
                    Some(k) => {
                        assert(rows[i as int].label == label@);
                        assert(k == i);
                    },
                    None => {
                        assert(rows[i as int].label == label@);
                    },
                }
            }
            let total = t[i].total_us + d;
            let count = t[i].count + 1;
            let lbl = t[i].label.clone();
            assert(lbl@ == label@);
            t.set(i, DurationCount { label: lbl, total_us: total, count });
            assert(count_rows(t@) =~= tally_add(rows, label@, d as nat));
            return ;
        }
        i += 1;
    }
    proof {
        lemma_row_index(rows, label@);
        assert forall|j: int| 0 <= j < rows.len() implies rows[j].label != label@ by {
            assert(rows[j] == t@[j]@);
        }
    }
    assert(row_index(rows, label@) is None);
    t.push(DurationCount { label: crate::text::copy_str(label), total_us: d, count: 1 });
    assert(count_rows(t@) =~= tally_add(rows, label@, d as nat));
}

/// The rank key of a tally row: its time, then its count, then its label.
pub open spec fn count_key(r: CountRow) -> RankKeyView {
    RankKeyView { major: r.total as int, minor: r.count as int, label: r.label }
}

pub open spec fn count_keys(t: Seq<CountRow>) -> Seq<RankKeyView> {
    t.map_values(|r: CountRow| count_key(r))
}

/// How many rows a table of at most `top` rows keeps of `n`.
pub open spec fn kept(top: nat, n: nat) -> int {
    if top < n {
        top as int
    } else {
        n as int
    }
}

/// `r` holds the `top` rows of `t` that count the most time, by time, then count, then label.
pub open spec fn is_top_counts(r: Seq<CountRow>, t: Seq<CountRow>, top: nat) -> bool {
    exists|p: Seq<int>| #[trigger] is_ranking(count_keys(t), p) && r == pick(t, p).take(kept(top, t.len()))
}

/// The `top` rows of a tally that count the most time (see [`is_top_counts`]).
pub fn top_count_map(input: &Vec<DurationCount>, top: usize) -> (r: Vec<DurationCount>)
    ensures
        is_top_counts(count_rows(r@), count_rows(input@), top as nat),
{
    let mut keys: Vec<RankKey> = Vec::new();
    let mut i: usize = 0;
    while i < input.len()
        invariant
            i <= input.len(),
            keys.len() == i,
            forall|j: int| 0 <= j < i ==> (#[trigger] keys@[j])@ == count_key(input@[j]@),
        decreases input.len() - i,
    {
        keys.push(RankKey { major: input[i].total_us, minor: input[i].count, label: input[i].label.clone() });
        i += 1;
    }
    let p = rank_order(&keys);
    let ghost t = count_rows(input@);
    assert(key_views(keys@) =~= count_keys(t));
    let n = if top < p.len() {
        top
    } else {
        p.len()
    };
    let mut r: Vec<DurationCount> = Vec::new();
    let mut j: usize = 0;
    while j < n
        invariant
            j <= n <= p.len(),
            p.len() == input.len(),
            is_ranking(count_keys(t), as_ints(p@)),
            t == count_rows(input@),
            count_rows(r@) == pick(t, as_ints(p@)).take(j as int),
        decreases n - j,
    {
        assert(0 <= as_ints(p@)[j as int] < t.len());
        let src = &input[p[j]];
        let row = DurationCount { label: src.label.clone(), total_us: src.total_us, count: src.count };
        assert(row@ == t[p@[j as int] as int]);
        let ghost before = r@;
        r.push(row);
        proof {
            let ps = as_ints(p@);
            assert(pick(t, ps)[j as int] == t[ps[j as int]]);
            assert(pick(t, ps).take(j + 1) =~= pick(t, ps).take(j as int).push(pick(t, ps)[j as int]));
            assert(count_rows(r@) =~= count_rows(before).push(row@));
        }
        j += 1;
    }
    assert(is_ranking(count_keys(t), as_ints(p@)) && count_rows(r@) == pick(t, as_ints(p@)).take(n as int));
    r
}

// ---------------------------------------------------------------------------
// Shortening texts
// ---------------------------------------------------------------------------

/// The number of bytes UTF-8 takes for `c`.
pub open spec fn utf8_width(c: char) -> nat {
    if (c as u32) < 0x80 {
        1
    } else if (c as u32) < 0x800 {
        2
    } else if (c as u32) < 0x10000 {
        3
    } else {
        4
    }
}

/// The number of bytes UTF-8 takes for `s`.
pub open spec fn utf8_len(s: Seq<char>) -> nat
    decreases s.len(),
{
    if s.len() == 0 {
        0
    } else {
        utf8_len(s.drop_last()) + utf8_width(s.last())
    }
}

/// `limit` less three, or zero.
pub open spec fn cut_bytes(limit: nat) -> nat {
    if limit >= 3 {
        (limit - 3) as nat
    } else {
        0
    }
}

/// `s` can be shortened to `limit` bytes: it fits, or a character ends exactly where the kept
/// part must end.
pub open spec fn can_compact(s: Seq<char>, limit: nat) -> bool {
    utf8_len(s) <= limit || exists|k: int| 0 <= k <= s.len() && #[trigger] utf8_len(s.take(k)) == cut_bytes(limit)
}

/// `s` shortened to at most `limit` bytes: whole if it fits, else its first `limit - 3` bytes
/// and `...`.
pub open spec fn compact_spec(s: Seq<char>, limit: nat) -> Seq<char> {
    if utf8_len(s) <= limit {
        s
    } else {
        s.take(choose|k: int| 0 <= k <= s.len() && #[trigger] utf8_len(s.take(k)) == cut_bytes(limit)) + "..."@
    }
}

/// No character takes more than four bytes.
pub proof fn lemma_utf8_len_bound(s: Seq<char>)
    ensures
        utf8_len(s) <= 4 * s.len(),
    decreases s.len(),
{
    if s.len() > 0 {
        lemma_utf8_len_bound(s.drop_last());
    }
}

pub proof fn lemma_utf8_len_take_step(s: Seq<char>, k: int)
    requires
        0 <= k < s.len(),
    ensures
        utf8_len(s.take(k + 1)) == utf8_len(s.take(k)) + utf8_width(s[k]),
{
    assert(s.take(k + 1).drop_last() =~= s.take(k));
}

pub proof fn lemma_utf8_len_take_mono(s: Seq<char>, a: int, b: int)
    requires
        0 <= a <= b <= s.len(),
    ensures
        utf8_len(s.take(a)) + (b - a) <= utf8_len(s.take(b)),
    decreases b - a,
{
    if a < b {
        lemma_utf8_len_take_mono(s, a, b - 1);
        lemma_utf8_len_take_step(s, b - 1);
    }
}

proof fn lemma_take_prefix_unique(s: Seq<char>, a: int, b: int)
    requires
        0 <= a < b <= s.len(),
    ensures
        utf8_len(s.take(a)) < utf8_len(s.take(b)),
{
    lemma_utf8_len_take_mono(s, a, b);
}

pub fn char_width(c: char) -> (w: usize)
    ensures
        w == utf8_width(c),
{
    let u = c as u32;
    if u < 0x80 {
        1
    } else if u < 0x800 {
        2
    } else if u < 0x10000 {
        3
    } else {
        4
    }
}

/// Shortens `input` to at most `limit` bytes (see [`compact_spec`]).
pub fn compact_text(input: &str, limit: usize) -> (r: String)
    requires
        can_compact(input@, limit as nat),
        limit <= usize::MAX - 4,
    ensures
        r@ == compact_spec(input@, limit as nat),
{
    let v = crate::text::str_chars(input);
    let mut bytes: usize = 0;
    let mut k: usize = 0;
    assert(v@.take(0) =~= Seq::<char>::empty());
    while k < v.len() && bytes <= limit
        invariant
            k <= v.len(),
            v@ == input@,
            bytes == utf8_len(v@.take(k as int)),
            bytes <= limit + 4,
            limit <= usize::MAX - 4,
        decreases v.len() - k,
    {
        proof {
            lemma_utf8_len_take_step(v@, k as int);
        }
        bytes = bytes + char_width(v[k]);
        k += 1;
    }
    if bytes <= limit {
        assert(v@.take(k as int) =~= v@);
        return crate::text::copy_str(input);
    }
    proof {
        lemma_utf8_len_take_mono(v@, k as int, v@.len() as int);
        assert(v@.take(v@.len() as int) =~= v@);
    }
    let cut: usize = if limit >= 3 {
        limit - 3
    } else {
        0
    };
    let mut b2: usize = 0;
    let mut j: usize = 0;
    while j < v.len() && b2 < cut
        invariant
            j <= v.len(),
            v@ == input@,
            b2 == utf8_len(v@.take(j as int)),
            cut == cut_bytes(limit as nat),
            cut <= limit,
            limit <= usize::MAX - 4,
            forall|m: int| 0 <= m < j ==> #[trigger] utf8_len(v@.take(m)) < cut,
        decreases v.len() - j,
    {
        proof {
            lemma_utf8_len_take_step(v@, j as int);
        }
        b2 = b2 + char_width(v[j]);
        j += 1;
    }
    proof {
        let kk = choose|kk: int| 0 <= kk <= v@.len() && #[trigger] utf8_len(v@.take(kk)) == cut_bytes(limit as nat);
        if kk > j {
            lemma_take_prefix_unique(v@, j as int, kk);
        }
        assert(kk == j);
    }
    let mut r = crate::text::string_from_range(&v, 0, j);
    crate::text::push_str(&mut r, "...");
    r
}

/// Whether `input` can be shortened to `limit` bytes (see [`can_compact`]).
pub fn can_compact_text(input: &str, limit: usize) -> (b: bool)
    requires
        limit <= usize::MAX - 4,
    ensures
        b == can_compact(input@, limit as nat),
{
    let v = crate::text::str_chars(input);
    let mut bytes: usize = 0;
    let mut k: usize = 0;
    assert(v@.take(0) =~= Seq::<char>::empty());
    while k < v.len() && bytes <= limit
        invariant
            k <= v.len(),
            v@ == input@,
            bytes == utf8_len(v@.take(k as int)),
            bytes <= limit + 4,
            limit <= usize::MAX - 4,
        decreases v.len() - k,
    {
        proof {
            lemma_utf8_len_take_step(v@, k as int);
        }
        bytes = bytes + char_width(v[k]);
        k += 1;
    }
    if bytes <= limit {
        assert(v@.take(k as int) =~= v@);
        return true;
    }
    proof {
        lemma_utf8_len_take_mono(v@, k as int, v@.len() as int);
        assert(v@.take(v@.len() as int) =~= v@);
    }
    let cut: usize = if limit >= 3 {
        limit - 3
    } else {
        0
    };
    let mut b2: usize = 0;
    let mut j: usize = 0;
    while j < v.len() && b2 < cut
        invariant
            j <= v.len(),
            v@ == input@,
            b2 == utf8_len(v@.take(j as int)),
            cut == cut_bytes(limit as nat),
            cut <= limit,
            limit <= usize::MAX - 4,
            forall|m: int| 0 <= m < j ==> #[trigger] utf8_len(v@.take(m)) < cut,
        decreases v.len() - j,
    {
        proof {
            lemma_utf8_len_take_step(v@, j as int);
        }
        b2 = b2 + char_width(v[j]);
        j += 1;
    }
    if b2 == cut {
        assert(utf8_len(v@.take(j as int)) == cut_bytes(limit as nat));
        return true;
    }
    proof {
        assert forall|kk: int| 0 <= kk <= v@.len() implies #[trigger] utf8_len(v@.take(kk)) != cut_bytes(limit as nat) by {
            if kk > j {
                lemma_take_prefix_unique(v@, j as int, kk);
            }
        }
    }
    false
}


/// `s` can be cut to its first `keep` bytes when longer than `limit`: it fits, or a character
/// ends exactly `keep` bytes in.
pub open spec fn can_shorten(s: Seq<char>, limit: nat, keep: nat) -> bool {
    utf8_len(s) <= limit || exists|k: int| 0 <= k <= s.len() && #[trigger] utf8_len(s.take(k)) == keep
}

/// `s` whole when it takes at most `limit` bytes, else its first `keep` bytes and `...`.
pub open spec fn shorten_spec(s: Seq<char>, limit: nat, keep: nat) -> Seq<char> {
    if utf8_len(s) <= limit {
        s
    } else {
        s.take(choose|k: int| 0 <= k <= s.len() && #[trigger] utf8_len(s.take(k)) == keep) + "..."@
    }
}

/// `input` whole when it takes at most `limit` bytes, else its first `keep` bytes and `...`
/// (see [`shorten_spec`]).
pub fn shorten_text(input: &str, limit: usize, keep: usize) -> (r: String)
    requires
        can_shorten(input@, limit as nat, keep as nat),
        keep <= limit <= usize::MAX - 4,
    ensures
        r@ == shorten_spec(input@, limit as nat, keep as nat),
{
    let v = crate::text::str_chars(input);
    let mut bytes: usize = 0;
    let mut k: usize = 0;
    assert(v@.take(0) =~= Seq::<char>::empty());
    while k < v.len() && bytes <= limit
        invariant
            k <= v.len(),
            v@ == input@,
            bytes == utf8_len(v@.take(k as int)),
            bytes <= limit + 4,
            limit <= usize::MAX - 4,
        decreases v.len() - k,
    {
        proof {
            lemma_utf8_len_take_step(v@, k as int);
        }
        bytes = bytes + char_width(v[k]);
        k += 1;
    }
    if bytes <= limit {
        assert(v@.take(k as int) =~= v@);
        return crate::text::copy_str(input);
    }
    proof {
        lemma_utf8_len_take_mono(v@, k as int, v@.len() as int);
        assert(v@.take(v@.len() as int) =~= v@);
    }
    let mut b2: usize = 0;
    let mut j: usize = 0;
    while j < v.len() && b2 < keep
        invariant
            j <= v.len(),
            v@ == input@,
            b2 == utf8_len(v@.take(j as int)),
            keep <= limit <= usize::MAX - 4,
            forall|m: int| 0 <= m < j ==> #[trigger] utf8_len(v@.take(m)) < keep,
        decreases v.len() - j,
    {
        proof {
            lemma_utf8_len_take_step(v@, j as int);
        }
        b2 = b2 + char_width(v[j]);
        j += 1;
    }
    proof {
        let kk = choose|kk: int| 0 <= kk <= v@.len() && #[trigger] utf8_len(v@.take(kk)) == keep as nat;
        if kk > j {
            lemma_take_prefix_unique(v@, j as int, kk);
        }
        assert(kk == j);
    }
    let mut r = crate::text::string_from_range(&v, 0, j);
    crate::text::push_str(&mut r, "...");
    r
}

/// Whether `input` can be cut as [`shorten_text`] cuts it.
pub fn can_shorten_text(input: &str, limit: usize, keep: usize) -> (b: bool)
    requires
        keep <= limit <= usize::MAX - 4,
    ensures
        b == can_shorten(input@, limit as nat, keep as nat),
{
    let v = crate::text::str_chars(input);
    let mut bytes: usize = 0;
    let mut k: usize = 0;
    assert(v@.take(0) =~= Seq::<char>::empty());
    while k < v.len() && bytes <= limit
        invariant
            k <= v.len(),
            v@ == input@,
            bytes == utf8_len(v@.take(k as int)),
            bytes <= limit + 4,
            limit <= usize::MAX - 4,
        decreases v.len() - k,
    {
        proof {
            lemma_utf8_len_take_step(v@, k as int);
        }
        bytes = bytes + char_width(v[k]);
        k += 1;
    }
    if bytes <= limit {
        assert(v@.take(k as int) =~= v@);
        return true;
    }
    proof {
        lemma_utf8_len_take_mono(v@, k as int, v@.len() as int);
        assert(v@.take(v@.len() as int) =~= v@);
    }
    let mut b2: usize = 0;
    let mut j: usize = 0;
    while j < v.len() && b2 < keep
        invariant
            j <= v.len(),
            v@ == input@,
            b2 == utf8_len(v@.take(j as int)),
            keep <= limit <= usize::MAX - 4,
            forall|m: int| 0 <= m < j ==> #[trigger] utf8_len(v@.take(m)) < keep,
        decreases v.len() - j,
    {
        proof {
            lemma_utf8_len_take_step(v@, j as int);
        }
        b2 = b2 + char_width(v[j]);
        j += 1;
    }
    if b2 == keep {
        return true;
    }
    proof {
        assert forall|kk: int| 0 <= kk <= v@.len() implies #[trigger] utf8_len(v@.take(kk)) != keep as nat by {
            if kk > j {
                lemma_take_prefix_unique(v@, j as int, kk);
            }
        }
    }
    false
}


proof fn lemma_utf8_len_concat(a: Seq<char>, b: Seq<char>)
    ensures
        utf8_len(a + b) == utf8_len(a) + utf8_len(b),
    decreases b.len(),
{
    if b.len() > 0 {
        lemma_utf8_len_concat(a, b.drop_last());
        assert((a + b).drop_last() =~= a + b.drop_last());
    } else {
        assert(a + b =~= a);
    }
}

/// A shortened text never takes more bytes than its limit.
pub proof fn compacted_text_fits(s: Seq<char>, limit: nat)
    requires
        can_compact(s, limit),
        limit >= 3,
    ensures
        utf8_len(compact_spec(s, limit)) <= limit,
{
    if utf8_len(s) > limit {
        let k = choose|k: int| 0 <= k <= s.len() && #[trigger] utf8_len(s.take(k)) == cut_bytes(limit);
        lemma_utf8_len_concat(s.take(k), "..."@);
        reveal_strlit("...");
        assert(utf8_len("..."@) == 3) by {
            reveal_strlit("...");
            reveal_with_fuel(utf8_len, 4);
            let d = "..."@;
            assert(d.len() == 3 && d[0] == '.' && d[1] == '.' && d[2] == '.');
            assert(utf8_width('.') == 1);
            assert(d.drop_last().drop_last().drop_last() =~= Seq::<char>::empty());
            assert(d.drop_last().drop_last().last() == '.');
            assert(d.drop_last().last() == '.');
            assert(d.last() == '.');
            assert(utf8_len(d.drop_last().drop_last()) == 1);
            assert(utf8_len(d.drop_last()) == 2);
        }
    }
}

pub open spec fn total_sum(t: Seq<CountRow>) -> nat
    decreases t.len(),
{
    if t.len() == 0 {
        0
    } else {
        total_sum(t.drop_last()) + t.last().total
    }
}

pub open spec fn count_sum(t: Seq<CountRow>) -> nat
    decreases t.len(),
{
    if t.len() == 0 {
        0
    } else {
        count_sum(t.drop_last()) + t.last().count
    }
}

/// The time counted over all rows of a tally.
pub open spec fn tally_total(t: Seq<CountRow>) -> nat {
    total_sum(t)
}

/// The events counted over all rows of a tally.
pub open spec fn tally_count(t: Seq<CountRow>) -> nat {
    count_sum(t)
}

proof fn lemma_sums_update(t: Seq<CountRow>, i: int, x: CountRow)
    requires
        0 <= i < t.len(),
    ensures
        total_sum(t.update(i, x)) + t[i].total == total_sum(t) + x.total,
        count_sum(t.update(i, x)) + t[i].count == count_sum(t) + x.count,
    decreases t.len(),
{
    if i < t.len() - 1 {
        lemma_sums_update(t.drop_last(), i, x);
        assert(t.update(i, x).drop_last() =~= t.drop_last().update(i, x));
    } else {
        assert(t.update(i, x).drop_last() =~= t.drop_last());
    }
}

/// Counting `d` microseconds under a label adds `d` to the tally's time and one to its events.
pub proof fn tally_add_counts_once(t: Seq<CountRow>, label: Seq<char>, d: nat)
    ensures
        tally_total(tally_add(t, label, d)) == tally_total(t) + d,
        tally_count(tally_add(t, label, d)) == tally_count(t) + 1,
{
    lemma_row_index(t, label);
    match row_index(t, label) {
        Some(i) => {
            lemma_sums_update(t, i, CountRow { label, total: t[i].total + d, count: t[i].count + 1 });
        },
        None => {
            assert(t.push(CountRow { label, total: d, count: 1 }).drop_last() =~= t);
        },
    }
}

} // verus!
