//! Breadth-first layers of a directed graph given by its arcs.
use vstd::prelude::*;

verus! {

broadcast use vstd::set::group_set_axioms, vstd::seq_lib::group_seq_properties, vstd::seq_lib::seq_to_set_is_finite;

/// The heads of the arcs whose tail lies in `s`.
pub open spec fn arc_succ(arcs: Seq<(u64, u64)>, s: Set<u64>) -> Set<u64> {
    Set::new(|t: u64| exists|i: int| 0 <= i < arcs.len() && s.contains(arcs[i].0) && arcs[i].1 == t)
}

/// The breadth-first layers from `start`: after `k` steps, `.0` holds the identifiers first
/// reached at distance `k`, and `.1` all those reached within distance `k`.
pub open spec fn bfs_step(arcs: Seq<(u64, u64)>, start: Set<u64>, k: nat) -> (Set<u64>, Set<u64>)
    decreases k,
{
    if k == 0 {
        (start, start)
    } else {
        let prev = bfs_step(arcs, start, (k - 1) as nat);
        let next = arc_succ(arcs, prev.0).difference(prev.1);
        (next, prev.1.union(next))
    }
}

/// `d` is the distance of the last non-empty layer from `start` (0 when `start` is empty).
pub open spec fn is_bfs_depth(arcs: Seq<(u64, u64)>, start: Set<u64>, d: nat) -> bool {
    &&& bfs_step(arcs, start, d + 1).0 == Set::<u64>::empty()
    &&& (d == 0 || bfs_step(arcs, start, d).0 != Set::<u64>::empty())
}

/// Everything reachable from `start`: the identifiers reached once the layers run out.
pub open spec fn is_reach_set(arcs: Seq<(u64, u64)>, start: Set<u64>, r: Set<u64>) -> bool {
    exists|k: nat| bfs_step(arcs, start, k).0 == Set::<u64>::empty() && #[trigger] bfs_step(arcs, start, k).1 == r
}

proof fn lemma_empty_layer_stays(arcs: Seq<(u64, u64)>, start: Set<u64>, k: nat, j: nat)
    requires
        bfs_step(arcs, start, k).0 == Set::<u64>::empty(),
        k <= j,
    ensures
        bfs_step(arcs, start, j).0 == Set::<u64>::empty(),
        bfs_step(arcs, start, j).1 == bfs_step(arcs, start, k).1,
    decreases j - k,
{
    if k < j {
        lemma_empty_layer_stays(arcs, start, k, (j - 1) as nat);
        let prev = bfs_step(arcs, start, (j - 1) as nat);
        assert(arc_succ(arcs, prev.0) =~= Set::<u64>::empty());
        assert(arc_succ(arcs, prev.0).difference(prev.1) =~= Set::<u64>::empty());
        assert(prev.1.union(Set::<u64>::empty()) =~= prev.1);
    }
}

/// The depth of the last non-empty layer is determined by the arcs and the start.
pub proof fn lemma_bfs_depth_unique(arcs: Seq<(u64, u64)>, start: Set<u64>, d1: nat, d2: nat)
    requires
        is_bfs_depth(arcs, start, d1),
        is_bfs_depth(arcs, start, d2),
    ensures
        d1 == d2,
{
    if d1 < d2 {
        lemma_empty_layer_stays(arcs, start, d1 + 1, d2);
    } else if d2 < d1 {
        lemma_empty_layer_stays(arcs, start, d2 + 1, d1);
    }
}

/// The set reached from a start is determined by the arcs and the start.
pub proof fn lemma_reach_set_unique(arcs: Seq<(u64, u64)>, start: Set<u64>, r1: Set<u64>, r2: Set<u64>)
    requires
        is_reach_set(arcs, start, r1),
        is_reach_set(arcs, start, r2),
    ensures
        r1 == r2,
{
    let k1 = choose|k: nat| bfs_step(arcs, start, k).0 == Set::<u64>::empty() && #[trigger] bfs_step(arcs, start, k).1 == r1;
    let k2 = choose|k: nat| bfs_step(arcs, start, k).0 == Set::<u64>::empty() && #[trigger] bfs_step(arcs, start, k).1 == r2;
    if k1 <= k2 {
        lemma_empty_layer_stays(arcs, start, k1, k2);
    } else {
        lemma_empty_layer_stays(arcs, start, k2, k1);
    }
}

/// Whether `x` occurs in `v`.
pub fn contains_id(v: &Vec<u64>, x: u64) -> (b: bool)
    ensures
        b == v@.contains(x),
{
    let mut i: usize = 0;
    while i < v.len()
        invariant
            i <= v.len(),
            forall|j: int| 0 <= j < i ==> v@[j] != x,
        decreases v.len() - i,
    {
        if v[i] == x {
            return true;
        }
        i += 1;
    }
    false
}

/// `v` without repetitions, first occurrences kept in order.
pub fn dedup_ids(v: &Vec<u64>) -> (r: Vec<u64>)
    ensures
        r@.no_duplicates(),
        r@.to_set() == v@.to_set(),
        forall|j: int, k: int| 0 <= j < k < r@.len() ==> #[trigger] r@[j] != #[trigger] r@[k],
{
    let mut r: Vec<u64> = Vec::new();
    let mut i: usize = 0;
    while i < v.len()
        invariant
            i <= v.len(),
            r@.no_duplicates(),
            r@.to_set() == v@.take(i as int).to_set(),
        decreases v.len() - i,
    {
        let x = v[i];
        assert(v@.take(i + 1) =~= v@.take(i as int).push(x));
        proof {
            v@.take(i as int).lemma_push_to_set_commute(x);
        }
        let ghost before = r@;
        if !contains_id(&r, x) {
            r.push(x);
            proof {
                before.lemma_push_to_set_commute(x);
            }
            assert(r@.to_set() =~= v@.take(i + 1).to_set());
        } else {
            assert(r@.to_set().contains(x));
            assert(r@.to_set() =~= v@.take(i + 1).to_set());
        }
        i += 1;
    }
    assert(v@.take(v.len() as int) =~= v@);
    r
}

/// The heads of the arcs whose tail is in `frontier` and that are not in `seen`, without
/// repetitions.
fn next_layer(arcs: &Vec<(u64, u64)>, frontier: &Vec<u64>, seen: &Vec<u64>) -> (r: Vec<u64>)
    ensures
        r@.no_duplicates(),
        r@.to_set() == arc_succ(arcs@, frontier@.to_set()).difference(seen@.to_set()),
{
    let mut r: Vec<u64> = Vec::new();
    let mut i: usize = 0;
    while i < arcs.len()
        invariant
            i <= arcs.len(),
            r@.no_duplicates(),
            r@.to_set() == arc_succ(arcs@.take(i as int), frontier@.to_set()).difference(seen@.to_set()),
        decreases arcs.len() - i,
    {
        let (a, b) = arcs[i];
        let ghost before = r@;
        let ghost cur = arcs@.take(i as int);
        let ghost nxt = arcs@.take(i + 1);
        if contains_id(frontier, a) && !contains_id(seen, b) && !contains_id(&r, b) {
            r.push(b);
        }
        assert(r@.to_set() =~= arc_succ(nxt, frontier@.to_set()).difference(seen@.to_set())) by {
            assert forall|t: u64| r@.to_set().contains(t) implies arc_succ(nxt, frontier@.to_set()).difference(
                seen@.to_set(),
            ).contains(t) by {
                if before.to_set().contains(t) {
                    let j = choose|j: int| 0 <= j < cur.len() && frontier@.to_set().contains(#[trigger] cur[j].0) && cur[j].1 == t;
                    assert(nxt[j] == cur[j]);
                } else {
                    assert(nxt[i as int] == arcs@[i as int]);
                }
            }
            assert forall|t: u64| arc_succ(nxt, frontier@.to_set()).difference(seen@.to_set()).contains(t)
                implies r@.to_set().contains(t) by {
                let j = choose|j: int| 0 <= j < nxt.len() && frontier@.to_set().contains(#[trigger] nxt[j].0) && nxt[j].1 == t;
                if j < i {
                    assert(cur[j] == nxt[j]);
                    assert(arc_succ(cur, frontier@.to_set()).contains(t));
                    assert(before.to_set().contains(t));
                    let k = choose|k: int| 0 <= k < before.len() && before[k] == t;
                    assert(r@[k] == t);
                } else {
                    assert(nxt[j] == arcs@[i as int]);
                    if before.contains(t) {
                        let k = choose|k: int| 0 <= k < before.len() && before[k] == t;
                        assert(r@[k] == t);
                    } else {
                        assert(r@.last() == t);
                    }
                }
            }
        }
        i += 1;
    }
    assert(arcs@.take(arcs.len() as int) =~= arcs@);
    r
}

/// The heads of all arcs.
pub open spec fn arc_heads(arcs: Seq<(u64, u64)>) -> Set<u64> {
    Set::new(|t: u64| exists|i: int| 0 <= i < arcs.len() && arcs[i].1 == t)
}

proof fn lemma_heads_bound(arcs: Seq<(u64, u64)>)
    ensures
        arc_heads(arcs).finite(),
        arc_heads(arcs).len() <= arcs.len(),
{
    let m = arcs.map_values(|p: (u64, u64)| p.1);
    assert(arc_heads(arcs) =~= m.to_set()) by {
        assert forall|t: u64| arc_heads(arcs).contains(t) implies m.to_set().contains(t) by {
            let i = choose|i: int| 0 <= i < arcs.len() && arcs[i].1 == t;
            assert(m[i] == t);
        }
    }
    m.lemma_cardinality_of_set();
}

/// Breadth-first search from `start`: the distance of the last non-empty layer, and every
/// identifier reached.
pub fn bfs(arcs: &Vec<(u64, u64)>, start: &Vec<u64>) -> (r: (usize, Vec<u64>))
    ensures
        is_bfs_depth(arcs@, start@.to_set(), r.0 as nat),
        is_reach_set(arcs@, start@.to_set(), r.1@.to_set()),
        r.1@.no_duplicates(),
{
    let ghost s0 = start@.to_set();
    let ghost universe = s0.union(arc_heads(arcs@));
    let ghost bound = start@.len() + arcs@.len();
    proof {
        lemma_heads_bound(arcs@);
        start@.lemma_cardinality_of_set();
        vstd::set_lib::lemma_len_union(s0, arc_heads(arcs@));
    }
    let mut frontier = dedup_ids(start);
    let mut seen = dedup_ids(start);
    let mut depth: usize = 0;
    let ghost mut k: nat = 0;
    proof {
        seen@.unique_seq_to_set();
        vstd::set_lib::lemma_len_subset(seen@.to_set(), universe);
    }
    loop
        invariant
            s0 == start@.to_set(),
            universe == s0.union(arc_heads(arcs@)),
            universe.finite(),
            universe.len() <= bound,
            bound == start@.len() + arcs@.len(),
            frontier@.to_set() == bfs_step(arcs@, s0, k).0,
            seen@.to_set() == bfs_step(arcs@, s0, k).1,
            seen@.no_duplicates(),
            seen@.to_set().subset_of(universe),
            seen@.len() <= bound,
            depth == k,
            depth <= seen@.len(),
            k == 0 || bfs_step(arcs@, s0, k).0 != Set::<u64>::empty(),
        decreases bound - seen@.len(),
    {
        let next = next_layer(arcs, &frontier, &seen);
        proof {
            assert(next@.to_set() == bfs_step(arcs@, s0, k + 1).0);
        }
        if next.len() == 0 {
            proof {
                next@.lemma_cardinality_of_empty_set_is_0();
                assert(bfs_step(arcs@, s0, k + 1).0 =~= Set::<u64>::empty());
                assert(bfs_step(arcs@, s0, k).1.union(Set::<u64>::empty()) =~= bfs_step(arcs@, s0, k).1);
                assert(bfs_step(arcs@, s0, k + 1).1 == seen@.to_set());
                assert(is_reach_set(arcs@, s0, seen@.to_set()));
            }
            return (depth, seen);
        }
        let ghost old_seen = seen@;
        let mut grown = next.clone();
        proof {
            assert(grown@ =~= next@) by {
                assert forall|j: int| 0 <= j < grown@.len() implies grown@[j] == next@[j] by {}
            }
        }
        let ghost added = next@;
        seen.append(&mut grown);
        proof {
            assert(seen@ =~= old_seen + added);
            assert(seen@.to_set() =~= old_seen.to_set().union(added.to_set()));
            assert forall|a: int, b: int| 0 <= a < old_seen.len() && 0 <= b < added.len() implies old_seen[a]
                != added[b] by {
                assert(old_seen.to_set().contains(old_seen[a]));
                assert(added.to_set().contains(added[b]));
            }
            vstd::seq_lib::lemma_no_dup_in_concat(old_seen, added);
            assert(added.to_set().subset_of(arc_heads(arcs@))) by {
                assert forall|t: u64| added.to_set().contains(t) implies arc_heads(arcs@).contains(t) by {
                    let i = choose|i: int|
                        0 <= i < arcs@.len() && frontier@.to_set().contains(arcs@[i].0) && arcs@[i].1 == t;
                }
            }
            seen@.unique_seq_to_set();
            vstd::set_lib::lemma_len_subset(seen@.to_set(), universe);
            assert(added.len() > 0);
            assert(added.to_set().contains(added[0]));
        }
        assert(seen@.len() == old_seen.len() + added.len());
        assert(depth < seen.len());
        frontier = next;
        depth = depth + 1;
        proof {
            k = k + 1;
        }
    }
}

/// What is reached within `k + 1` steps is what was reached within `k`, and the new layer.
proof fn lemma_within_grows(arcs: Seq<(u64, u64)>, start: Set<u64>, k: nat)
    ensures
        bfs_step(arcs, start, k).1.subset_of(bfs_step(arcs, start, k + 1).1),
        bfs_step(arcs, start, k).0.subset_of(bfs_step(arcs, start, k).1),
        start.subset_of(bfs_step(arcs, start, k).1),
    decreases k,
{
    if k > 0 {
        lemma_within_grows(arcs, start, (k - 1) as nat);
    }
}

/// An arc leaving what is reached within `k` steps ends within `k + 1` steps.
proof fn lemma_succ_within(arcs: Seq<(u64, u64)>, start: Set<u64>, k: nat, i: int)
    requires
        0 <= i < arcs.len(),
        bfs_step(arcs, start, k).1.contains(arcs[i].0),
    ensures
        bfs_step(arcs, start, k + 1).1.contains(arcs[i].1),
    decreases k,
{
    let cur = bfs_step(arcs, start, k);
    lemma_within_grows(arcs, start, k);
    if cur.0.contains(arcs[i].0) {
        assert(arc_succ(arcs, cur.0).contains(arcs[i].1));
    } else {
        let prev = bfs_step(arcs, start, (k - 1) as nat);
        assert(k > 0);
        assert(prev.1.contains(arcs[i].0));
        lemma_succ_within(arcs, start, (k - 1) as nat, i);
    }
}

/// What is reached from a start includes it and is closed under the arcs.
pub proof fn lemma_reach_closed(arcs: Seq<(u64, u64)>, start: Set<u64>, r: Set<u64>)
    requires
        is_reach_set(arcs, start, r),
    ensures
        start.subset_of(r),
        forall|i: int| 0 <= i < arcs.len() && r.contains(arcs[i].0) ==> r.contains(#[trigger] arcs[i].1),
{
    let k = choose|k: nat| bfs_step(arcs, start, k).0 == Set::<u64>::empty() && #[trigger] bfs_step(arcs, start, k).1 == r;
    lemma_within_grows(arcs, start, k);
    lemma_empty_layer_stays(arcs, start, k, k + 1);
    assert forall|i: int| 0 <= i < arcs.len() && r.contains(arcs[i].0) implies r.contains(#[trigger] arcs[i].1) by {
        lemma_succ_within(arcs, start, k, i);
    }
}

/// Within any number of steps, nothing leaves a set that holds the start and is closed under
/// the arcs.
proof fn lemma_within_closed_set(arcs: Seq<(u64, u64)>, start: Set<u64>, s: Set<u64>, k: nat)
    requires
        start.subset_of(s),
        forall|i: int| 0 <= i < arcs.len() && s.contains(arcs[i].0) ==> s.contains(#[trigger] arcs[i].1),
    ensures
        bfs_step(arcs, start, k).1.subset_of(s),
        bfs_step(arcs, start, k).0.subset_of(s),
    decreases k,
{
    if k > 0 {
        lemma_within_closed_set(arcs, start, s, (k - 1) as nat);
        let prev = bfs_step(arcs, start, (k - 1) as nat);
        assert forall|t: u64| arc_succ(arcs, prev.0).contains(t) implies s.contains(t) by {
            let i = choose|i: int| 0 <= i < arcs.len() && prev.0.contains(arcs[i].0) && arcs[i].1 == t;
        }
    }
}

/// Within `k` steps, breadth-first search reaches at least `k` identifiers past the start
/// while every layer up to `k` is non-empty, and never more than the start and the arcs'
/// heads.
proof fn lemma_within_count(arcs: Seq<(u64, u64)>, start: Set<u64>, k: nat)
    requires
        start.finite(),
        forall|j: nat| 1 <= j <= k ==> #[trigger] bfs_step(arcs, start, j).0 != Set::<u64>::empty(),
    ensures
        bfs_step(arcs, start, k).1.finite(),
        bfs_step(arcs, start, k).1.len() >= k,
        bfs_step(arcs, start, k).1.subset_of(start.union(arc_heads(arcs))),
    decreases k,
{
    let cur = bfs_step(arcs, start, k);
    if k == 0 {
        assert(cur.1 == start);
    } else {
        let prev = bfs_step(arcs, start, (k - 1) as nat);
        lemma_within_count(arcs, start, (k - 1) as nat);
        let next = arc_succ(arcs, prev.0).difference(prev.1);
        assert(next.subset_of(arc_heads(arcs))) by {
            assert forall|t: u64| next.contains(t) implies arc_heads(arcs).contains(t) by {
                let i = choose|i: int| 0 <= i < arcs.len() && prev.0.contains(arcs[i].0) && arcs[i].1 == t;
            }
        }
        lemma_heads_bound(arcs);
        vstd::set_lib::lemma_len_subset(next, arc_heads(arcs));
        assert(next.disjoint(prev.1));
        vstd::set_lib::lemma_set_disjoint_lens(prev.1, next);
        assert(bfs_step(arcs, start, k).0 != Set::<u64>::empty());
        assert(cur.0 == next);
        assert(next.finite());
        assert(next.len() > 0) by {
            if next.len() == 0 {
                assert(next =~= Set::<u64>::empty());
            }
        }
    }
}

/// Breadth-first search from a finite start ends: something is reached from it.
pub proof fn lemma_reach_exists(arcs: Seq<(u64, u64)>, start: Set<u64>)
    requires
        start.finite(),
    ensures
        exists|r: Set<u64>| is_reach_set(arcs, start, r),
{
    let u = start.union(arc_heads(arcs));
    lemma_heads_bound(arcs);
    let n = u.len();
    if forall|j: nat| 1 <= j <= n + 1 ==> #[trigger] bfs_step(arcs, start, j).0 != Set::<u64>::empty() {
        lemma_within_count(arcs, start, n + 1);
        vstd::set_lib::lemma_len_subset(bfs_step(arcs, start, n + 1).1, u);
    } else {
        let j = choose|j: nat| !(1 <= j <= n + 1 ==> #[trigger] bfs_step(arcs, start, j).0 != Set::<u64>::empty());
        assert(is_reach_set(arcs, start, bfs_step(arcs, start, j).1));
    }
}

/// What a start reaches through `arcs` is also what a larger start, inside it, reaches through
/// other arcs that keep every arc of `arcs` leaving it and add none that leaves it.
pub proof fn lemma_reach_transfer(
    arcs: Seq<(u64, u64)>,
    start: Set<u64>,
    r: Set<u64>,
    arcs2: Seq<(u64, u64)>,
    start2: Set<u64>,
)
    requires
        is_reach_set(arcs, start, r),
        start.subset_of(start2),
        start2.subset_of(r),
        forall|i: int| 0 <= i < arcs.len() && r.contains(arcs[i].0) ==> exists|j: int| 0 <= j < arcs2.len() && #[trigger] arcs2[j] == #[trigger] arcs[i],
        forall|j: int| 0 <= j < arcs2.len() ==> r.contains(#[trigger] arcs2[j].0) && r.contains(arcs2[j].1),
    ensures
        is_reach_set(arcs2, start2, r),
{
    let k = choose|k: nat| bfs_step(arcs, start, k).0 == Set::<u64>::empty() && #[trigger] bfs_step(arcs, start, k).1 == r;
    lemma_reach_closed(arcs, start, r);
    lemma_within_closed_set(arcs2, start2, r, k);
    lemma_within_above(arcs, start, r, arcs2, start2, k);
    assert(bfs_step(arcs2, start2, k).1 =~= r);
    let cur = bfs_step(arcs2, start2, k);
    let next = arc_succ(arcs2, cur.0).difference(cur.1);
    assert(next =~= Set::<u64>::empty()) by {
        assert forall|t: u64| !next.contains(t) by {
            if arc_succ(arcs2, cur.0).contains(t) {
                let j = choose|j: int| 0 <= j < arcs2.len() && cur.0.contains(arcs2[j].0) && arcs2[j].1 == t;
            }
        }
    }
    assert(bfs_step(arcs2, start2, k + 1).1 =~= r);
    assert(is_reach_set(arcs2, start2, r)) by {
        assert(bfs_step(arcs2, start2, k + 1).0 == Set::<u64>::empty() && bfs_step(arcs2, start2, k + 1).1 == r);
    }
}

proof fn lemma_within_above(
    arcs: Seq<(u64, u64)>,
    start: Set<u64>,
    r: Set<u64>,
    arcs2: Seq<(u64, u64)>,
    start2: Set<u64>,
    k: nat,
)
    requires
        start.subset_of(start2),
        start.subset_of(r),
        forall|i: int| 0 <= i < arcs.len() && r.contains(arcs[i].0) ==> r.contains(#[trigger] arcs[i].1),
        forall|i: int| 0 <= i < arcs.len() && r.contains(arcs[i].0) ==> exists|j: int| 0 <= j < arcs2.len() && #[trigger] arcs2[j] == #[trigger] arcs[i],
    ensures
        bfs_step(arcs, start, k).1.subset_of(bfs_step(arcs2, start2, k).1),
    decreases k,
{
    if k > 0 {
        let km = (k - 1) as nat;
        lemma_within_above(arcs, start, r, arcs2, start2, km);
        lemma_within_grows(arcs2, start2, km);
        lemma_within_grows(arcs, start, km);
        lemma_within_closed_set(arcs, start, r, km);
        let prev = bfs_step(arcs, start, km);
        assert forall|t: u64| bfs_step(arcs, start, k).1.contains(t) implies bfs_step(arcs2, start2, k).1.contains(t) by {
            if !prev.1.contains(t) {
                let i = choose|i: int| 0 <= i < arcs.len() && prev.0.contains(arcs[i].0) && arcs[i].1 == t;
                assert(r.contains(arcs[i].0));
                let j = choose|j: int| 0 <= j < arcs2.len() && #[trigger] arcs2[j] == arcs[i];
                assert(bfs_step(arcs2, start2, km).1.contains(arcs2[j].0));
                lemma_succ_within(arcs2, start2, km, j);
            }
        }
    }
}

/// Nothing is reached from an empty start.
pub proof fn lemma_within_empty_start(arcs: Seq<(u64, u64)>, r: Set<u64>)
    requires
        is_reach_set(arcs, Set::<u64>::empty(), r),
    ensures
        r == Set::<u64>::empty(),
{
    let k = choose|k: nat| bfs_step(arcs, Set::<u64>::empty(), k).0 == Set::<u64>::empty() && #[trigger] bfs_step(arcs, Set::<u64>::empty(), k).1 == r;
    lemma_within_closed_set(arcs, Set::<u64>::empty(), Set::<u64>::empty(), k);
    assert(r =~= Set::<u64>::empty());
}

} // verus!
