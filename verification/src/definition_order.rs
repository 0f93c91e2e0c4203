//! The orders in which definition views list their nodes and edges.
use vstd::prelude::*;

use crate::definition::{DefEdgeView, DefNodeView, DefinitionEdge, DefinitionNode, edge_views, node_views};
use crate::text::{lemma_seq_lt_asymmetric, lemma_seq_lt_irreflexive, lemma_seq_lt_total, lemma_seq_lt_transitive, seq_lt, str_lt};

verus! {

broadcast use vstd::seq_lib::group_seq_properties;

/// The nodes are listed by increasing identifier.
pub open spec fn nodes_sorted(s: Seq<DefNodeView>) -> bool {
    forall|i: int, j: int| 0 <= i < j < s.len() ==> s[i].id.0 <= s[j].id.0
}

/// The nodes with identifier `v`.
pub open spec fn with_id(v: u64) -> spec_fn(DefNodeView) -> bool {
    |n: DefNodeView| n.id.0 == v
}

/// `r` lists the nodes of `s` by increasing identifier, nodes with equal identifiers in the
/// order `s` lists them (a stable sort).
pub open spec fn stable_sorted_nodes(r: Seq<DefNodeView>, s: Seq<DefNodeView>) -> bool {
    nodes_sorted(r) && forall|v: u64| #[trigger] r.filter(with_id(v)) == s.filter(with_id(v))
}

/// Edge `a` sorts strictly before edge `b`: by source, then target, then label.
pub open spec fn edge_lt(a: DefEdgeView, b: DefEdgeView) -> bool {
    a.from.0 < b.from.0 || (a.from.0 == b.from.0 && (a.to.0 < b.to.0 || (a.to.0 == b.to.0 && seq_lt(a.label, b.label))))
}

/// The edges are listed by increasing source, target and label.
pub open spec fn edges_sorted(s: Seq<DefEdgeView>) -> bool {
    forall|i: int, j: int| 0 <= i < j < s.len() ==> !edge_lt(s[j], s[i])
}

/// The edges with the same source, target and label as `e`.
pub open spec fn same_key(e: DefEdgeView) -> spec_fn(DefEdgeView) -> bool {
    |x: DefEdgeView| x.from == e.from && x.to == e.to && x.label == e.label
}

/// `r` lists the edges of `s` sorted by source, target and label, edges with equal keys in the
/// order `s` lists them (a stable sort).
pub open spec fn stable_sorted_edges(r: Seq<DefEdgeView>, s: Seq<DefEdgeView>) -> bool {
    edges_sorted(r) && forall|e: DefEdgeView| #[trigger] r.filter(same_key(e)) == s.filter(same_key(e))
}

proof fn lemma_filter_none<A>(s: Seq<A>, p: spec_fn(A) -> bool)
    requires
        forall|i: int| 0 <= i < s.len() ==> !p(s[i]),
    ensures
        s.filter(p) == Seq::<A>::empty(),
    decreases s.len(),
{
    reveal(Seq::filter);
    if s.len() > 0 {
        lemma_filter_none(s.drop_last(), p);
    }
}

proof fn lemma_filter_push<A>(s: Seq<A>, x: A, p: spec_fn(A) -> bool)
    ensures
        s.push(x).filter(p) == if p(x) {
            s.filter(p).push(x)
        } else {
            s.filter(p)
        },
{
    reveal(Seq::filter);
    assert(s.push(x).drop_last() =~= s);
}

proof fn lemma_insert_split<A>(r: Seq<A>, p: int, x: A)
    requires
        0 <= p <= r.len(),
    ensures
        r.insert(p, x) == r.take(p) + seq![x] + r.skip(p),
        r == r.take(p) + r.skip(p),
{
    assert(r.insert(p, x) =~= r.take(p) + seq![x] + r.skip(p));
    assert(r =~= r.take(p) + r.skip(p));
}

proof fn lemma_node_insert(r: Seq<DefNodeView>, s: Seq<DefNodeView>, p: int, x: DefNodeView)
    requires
        stable_sorted_nodes(r, s),
        0 <= p <= r.len(),
        forall|i: int| 0 <= i < p ==> r[i].id.0 <= x.id.0,
        forall|i: int| p <= i < r.len() ==> r[i].id.0 > x.id.0,
    ensures
        stable_sorted_nodes(r.insert(p, x), s.push(x)),
{
    let r2 = r.insert(p, x);
    lemma_insert_split(r, p, x);
    assert forall|v: u64| #[trigger] r2.filter(with_id(v)) == s.push(x).filter(with_id(v)) by {
        let f = with_id(v);
        Seq::filter_distributes_over_add(r.take(p) + seq![x], r.skip(p), f);
        Seq::filter_distributes_over_add(r.take(p), seq![x], f);
        Seq::filter_distributes_over_add(r.take(p), r.skip(p), f);
        lemma_filter_push(s, x, f);
        lemma_filter_push(Seq::<DefNodeView>::empty(), x, f);
        assert(seq![x] =~= Seq::<DefNodeView>::empty().push(x));
        reveal(Seq::filter);
        assert(Seq::<DefNodeView>::empty().filter(f) =~= Seq::<DefNodeView>::empty());
        if v == x.id.0 {
            lemma_filter_none(r.skip(p), f);
        }
        assert(r2.filter(f) =~= s.push(x).filter(f));
    }
}

/// `v` stably sorted by identifier.
pub fn sort_nodes(v: Vec<DefinitionNode>) -> (r: Vec<DefinitionNode>)
    ensures
        stable_sorted_nodes(node_views(r@), node_views(v@)),
{
    let mut r: Vec<DefinitionNode> = Vec::new();
    let mut v = v;
    let ghost all = node_views(v@);
    let ghost orig = v@;
    let ghost mut done: int = 0;
    reveal(Seq::filter);
    assert forall|w: u64| #[trigger] node_views(r@).filter(with_id(w)) == all.take(0).filter(with_id(w)) by {
        assert(all.take(0) =~= Seq::<DefNodeView>::empty());
        assert(node_views(r@) =~= Seq::<DefNodeView>::empty());
    }
    assert(orig.skip(0) =~= orig);
    while v.len() > 0
        invariant
            0 <= done <= orig.len(),
            all == node_views(orig),
            v@ == orig.skip(done),
            stable_sorted_nodes(node_views(r@), all.take(done)),
        decreases v.len(),
    {
        let x = v.remove(0);
        let mut p: usize = 0;
        while p < r.len() && r[p].id.0 <= x.id.0
            invariant
                p <= r.len(),
                forall|k: int| 0 <= k < p ==> r@[k].id.0 <= x.id.0,
            decreases r.len() - p,
        {
            p += 1;
        }
        proof {
            let rv = node_views(r@);
            assert forall|k: int| p <= k < rv.len() implies rv[k].id.0 > x.id.0 by {
                assert(rv[p as int].id.0 > x.id.0);
            }
            lemma_node_insert(rv, all.take(done), p as int, x@);
            assert(all.take(done + 1) =~= all.take(done).push(x@));
            assert(v@ =~= orig.skip(done + 1));
            assert(node_views(r@.insert(p as int, x)) =~= rv.insert(p as int, x@));
            done = done + 1;
        }
        r.insert(p, x);
    }
    assert(all.take(done) =~= all);
    r
}


proof fn lemma_edge_lt_asymmetric(a: DefEdgeView, b: DefEdgeView)
    requires
        edge_lt(a, b),
    ensures
        !edge_lt(b, a),
        !same_key(a)(b),
{
    if a.from.0 == b.from.0 && a.to.0 == b.to.0 && seq_lt(a.label, b.label) {
        lemma_seq_lt_asymmetric(a.label, b.label);
        if a.label == b.label {
            lemma_seq_lt_irreflexive(a.label);
        }
    }
}

proof fn lemma_edge_lt_le(a: DefEdgeView, b: DefEdgeView, c: DefEdgeView)
    requires
        edge_lt(a, b),
        !edge_lt(c, b),
    ensures
        edge_lt(a, c),
{
    if b.from.0 == c.from.0 && b.to.0 == c.to.0 && b.label != c.label {
        lemma_seq_lt_total(b.label, c.label);
    }
    if a.from.0 == b.from.0 && a.to.0 == b.to.0 && b.from.0 == c.from.0 && b.to.0 == c.to.0 {
        if b.label != c.label {
            lemma_seq_lt_transitive(a.label, b.label, c.label);
        }
    }
}

proof fn lemma_edge_insert(r: Seq<DefEdgeView>, s: Seq<DefEdgeView>, p: int, x: DefEdgeView)
    requires
        stable_sorted_edges(r, s),
        0 <= p <= r.len(),
        forall|i: int| 0 <= i < p ==> !edge_lt(x, r[i]),
        forall|i: int| p <= i < r.len() ==> edge_lt(x, r[i]),
    ensures
        stable_sorted_edges(r.insert(p, x), s.push(x)),
{
    let r2 = r.insert(p, x);
    lemma_insert_split(r, p, x);
    assert forall|i: int, j: int| 0 <= i < j < r2.len() implies !edge_lt(r2[j], r2[i]) by {
        if i < p && j == p {
        } else if i == p && j > p {
            assert(r2[j] == r[j - 1]);
            lemma_edge_lt_asymmetric(x, r[j - 1]);
        } else if i < p && j > p {
            assert(r2[j] == r[j - 1]);
        } else if i > p {
            assert(r2[i] == r[i - 1]);
            assert(r2[j] == r[j - 1]);
        }
    }
    assert forall|e: DefEdgeView| #[trigger] r2.filter(same_key(e)) == s.push(x).filter(same_key(e)) by {
        let f = same_key(e);
        Seq::filter_distributes_over_add(r.take(p) + seq![x], r.skip(p), f);
        Seq::filter_distributes_over_add(r.take(p), seq![x], f);
        Seq::filter_distributes_over_add(r.take(p), r.skip(p), f);
        lemma_filter_push(s, x, f);
        lemma_filter_push(Seq::<DefEdgeView>::empty(), x, f);
        assert(seq![x] =~= Seq::<DefEdgeView>::empty().push(x));
        reveal(Seq::filter);
        assert(Seq::<DefEdgeView>::empty().filter(f) =~= Seq::<DefEdgeView>::empty());
        if f(x) {
            assert forall|k: int| 0 <= k < r.skip(p).len() implies !f(r.skip(p)[k]) by {
                lemma_edge_lt_asymmetric(x, r[p + k]);
            }
            lemma_filter_none(r.skip(p), f);
        }
        assert(r2.filter(f) =~= s.push(x).filter(f));
    }
}

fn edge_before(a: &DefinitionEdge, b: &DefinitionEdge) -> (r: bool)
    ensures
        r == edge_lt(a@, b@),
{
    a.from.0 < b.from.0 || (a.from.0 == b.from.0 && (a.to.0 < b.to.0 || (a.to.0 == b.to.0 && str_lt(
        a.label.as_str(),
        b.label.as_str(),
    ))))
}

/// `v` stably sorted by source, target and label.
pub fn sort_edges(v: Vec<DefinitionEdge>) -> (r: Vec<DefinitionEdge>)
    ensures
        stable_sorted_edges(edge_views(r@), edge_views(v@)),
{
    let mut r: Vec<DefinitionEdge> = Vec::new();
    let mut v = v;
    let ghost all = edge_views(v@);
    let ghost orig = v@;
    let ghost mut done: int = 0;
    reveal(Seq::filter);
    assert forall|w: DefEdgeView| #[trigger] edge_views(r@).filter(same_key(w)) == all.take(0).filter(same_key(w)) by {
        assert(all.take(0) =~= Seq::<DefEdgeView>::empty());
        assert(edge_views(r@) =~= Seq::<DefEdgeView>::empty());
    }
    assert(orig.skip(0) =~= orig);
    while v.len() > 0
        invariant
            0 <= done <= orig.len(),
            all == edge_views(orig),
            v@ == orig.skip(done),
            stable_sorted_edges(edge_views(r@), all.take(done)),
        decreases v.len(),
    {
        let x = v.remove(0);
        let mut p: usize = 0;
        while p < r.len() && !edge_before(&x, &r[p])
            invariant
                p <= r.len(),
                forall|k: int| 0 <= k < p ==> !edge_lt(x@, r@[k]@),
            decreases r.len() - p,
        {
            p += 1;
        }
        proof {
            let rv = edge_views(r@);
            assert forall|k: int| p <= k < rv.len() implies edge_lt(x@, rv[k]) by {
                if k > p {
                    lemma_edge_lt_le(x@, rv[p as int], rv[k]);
                }
            }
            lemma_edge_insert(rv, all.take(done), p as int, x@);
            assert(all.take(done + 1) =~= all.take(done).push(x@));
            assert(v@ =~= orig.skip(done + 1));
            assert(edge_views(r@.insert(p as int, x)) =~= rv.insert(p as int, x@));
            done = done + 1;
        }
        r.insert(p, x);
    }
    assert(all.take(done) =~= all);
    r
}

/// A stable sort keeps only what it sorted: every node of `r` is a node of `s`.
pub proof fn lemma_sorted_nodes_from(r: Seq<DefNodeView>, s: Seq<DefNodeView>, i: int)
    requires
        stable_sorted_nodes(r, s),
        0 <= i < r.len(),
    ensures
        s.contains(r[i]),
{
    let p = with_id(r[i].id.0);
    r.lemma_filter_contains(p, i);
    assert(r.filter(p) == s.filter(p));
    s.lemma_filter_contains_rev(p, r[i]);
}

/// A stable sort keeps only what it sorted: every edge of `r` is an edge of `s`.
pub proof fn lemma_sorted_edges_from(r: Seq<DefEdgeView>, s: Seq<DefEdgeView>, i: int)
    requires
        stable_sorted_edges(r, s),
        0 <= i < r.len(),
    ensures
        s.contains(r[i]),
{
    let p = same_key(r[i]);
    r.lemma_filter_contains(p, i);
    assert(r.filter(p) == s.filter(p));
    s.lemma_filter_contains_rev(p, r[i]);
}

/// Some element of `s` passes `p` when its filter is not empty.
proof fn lemma_filter_witness<A>(s: Seq<A>, p: spec_fn(A) -> bool) -> (k: int)
    requires
        s.filter(p).len() > 0,
    ensures
        0 <= k < s.len(),
        p(s[k]),
{
    s.lemma_filter_pred(p, 0);
    s.lemma_filter_contains_rev(p, s.filter(p)[0]);
    choose|k: int| 0 <= k < s.len() && s[k] == s.filter(p)[0]
}

/// Two node lists sorted by identifier that hold, for every identifier, the same nodes in
/// the same order are the same list.
pub proof fn lemma_sorted_nodes_unique(a: Seq<DefNodeView>, b: Seq<DefNodeView>)
    requires
        nodes_sorted(a),
        nodes_sorted(b),
        forall|v: u64| #[trigger] a.filter(with_id(v)) == b.filter(with_id(v)),
    ensures
        a == b,
    decreases a.len() + b.len(),
{
    if a.len() == 0 && b.len() == 0 {
        assert(a =~= b);
        return;
    }
    if a.len() == 0 {
        let y = b.last();
        b.drop_last().lemma_filter_push(y, with_id(y.id.0));
        assert(b.drop_last().push(y) =~= b);
        assert(a.filter(with_id(y.id.0)) =~= Seq::<DefNodeView>::empty()) by {
            reveal(Seq::filter);
        }
        return;
    }
    if b.len() == 0 {
        let x = a.last();
        a.drop_last().lemma_filter_push(x, with_id(x.id.0));
        assert(a.drop_last().push(x) =~= a);
        assert(b.filter(with_id(x.id.0)) =~= Seq::<DefNodeView>::empty()) by {
            reveal(Seq::filter);
        }
        return;
    }
    let a1 = a.drop_last();
    let b1 = b.drop_last();
    let x = a.last();
    let y = b.last();
    assert(a1.push(x) =~= a);
    assert(b1.push(y) =~= b);
    a1.lemma_filter_push(x, with_id(y.id.0));
    b1.lemma_filter_push(y, with_id(y.id.0));
    a1.lemma_filter_push(x, with_id(x.id.0));
    b1.lemma_filter_push(y, with_id(x.id.0));
    let ka = lemma_filter_witness(a, with_id(y.id.0));
    let kb = lemma_filter_witness(b, with_id(x.id.0));
    assert(a[ka].id.0 <= x.id.0);
    assert(b[kb].id.0 <= y.id.0);
    assert(x.id == y.id);
    let v = x.id.0;
    assert(a.filter(with_id(v)) == b.filter(with_id(v)));
    assert(a.filter(with_id(v)).last() == x);
    assert(b.filter(with_id(v)).last() == y);
    assert(x == y);
    assert forall|w: u64| #[trigger] a1.filter(with_id(w)) == b1.filter(with_id(w)) by {
        a1.lemma_filter_push(x, with_id(w));
        b1.lemma_filter_push(y, with_id(w));
        assert(a.filter(with_id(w)) == b.filter(with_id(w)));
        if w == v {
            assert(a1.filter(with_id(w)) =~= a.filter(with_id(w)).drop_last());
            assert(b1.filter(with_id(w)) =~= b.filter(with_id(w)).drop_last());
        }
    }
    lemma_sorted_nodes_unique(a1, b1);
}

/// Two edge lists sorted by source, target and label that hold, for every such key, the same
/// edges in the same order are the same list.
pub proof fn lemma_sorted_edges_unique(a: Seq<DefEdgeView>, b: Seq<DefEdgeView>)
    requires
        edges_sorted(a),
        edges_sorted(b),
        forall|e: DefEdgeView| #[trigger] a.filter(same_key(e)) == b.filter(same_key(e)),
    ensures
        a == b,
    decreases a.len() + b.len(),
{
    if a.len() == 0 && b.len() == 0 {
        assert(a =~= b);
        return;
    }
    if a.len() == 0 {
        let y = b.last();
        b.drop_last().lemma_filter_push(y, same_key(y));
        assert(b.drop_last().push(y) =~= b);
        assert(a.filter(same_key(y)) =~= Seq::<DefEdgeView>::empty()) by {
            reveal(Seq::filter);
        }
        return;
    }
    if b.len() == 0 {
        let x = a.last();
        a.drop_last().lemma_filter_push(x, same_key(x));
        assert(a.drop_last().push(x) =~= a);
        assert(b.filter(same_key(x)) =~= Seq::<DefEdgeView>::empty()) by {
            reveal(Seq::filter);
        }
        return;
    }
    let a1 = a.drop_last();
    let b1 = b.drop_last();
    let x = a.last();
    let y = b.last();
    assert(a1.push(x) =~= a);
    assert(b1.push(y) =~= b);
    a1.lemma_filter_push(x, same_key(y));
    b1.lemma_filter_push(y, same_key(y));
    a1.lemma_filter_push(x, same_key(x));
    b1.lemma_filter_push(y, same_key(x));
    let ka = lemma_filter_witness(a, same_key(y));
    let kb = lemma_filter_witness(b, same_key(x));
    let same = x.from == y.from && x.to == y.to && x.label == y.label;
    if !same {
        if x.from == y.from && x.to == y.to {
            lemma_seq_lt_total(x.label, y.label);
        }
        if edge_lt(x, y) {
            if ka < a.len() - 1 {
                assert(!edge_lt(a[a.len() - 1], a[ka]));
            }
            assert(false);
        } else {
            assert(edge_lt(y, x));
            if kb < b.len() - 1 {
                assert(!edge_lt(b[b.len() - 1], b[kb]));
            }
            assert(false);
        }
    }
    assert(same_key(x) =~= same_key(y));
    assert(a.filter(same_key(x)) == b.filter(same_key(x)));
    assert(a.filter(same_key(x)).last() == x);
    assert(b.filter(same_key(y)).last() == y);
    assert(x == y);
    assert forall|e: DefEdgeView| #[trigger] a1.filter(same_key(e)) == b1.filter(same_key(e)) by {
        a1.lemma_filter_push(x, same_key(e));
        b1.lemma_filter_push(y, same_key(e));
        assert(a.filter(same_key(e)) == b.filter(same_key(e)));
        if same_key(e)(x) {
            assert(a1.filter(same_key(e)) =~= a.filter(same_key(e)).drop_last());
            assert(b1.filter(same_key(e)) =~= b.filter(same_key(e)).drop_last());
        }
    }
    lemma_sorted_edges_unique(a1, b1);
}

/// A stable sort keeps everything it sorted: every edge of `s` is an edge of `r`.
pub proof fn lemma_sorted_edges_keep(r: Seq<DefEdgeView>, s: Seq<DefEdgeView>, x: DefEdgeView)
    requires
        stable_sorted_edges(r, s),
        s.contains(x),
    ensures
        r.contains(x),
{
    let p = same_key(x);
    let k = choose|k: int| 0 <= k < s.len() && s[k] == x;
    s.lemma_filter_contains(p, k);
    assert(r.filter(p) == s.filter(p));
    r.lemma_filter_contains_rev(p, x);
}

/// A stable sort keeps everything it sorted: every node of `s` is a node of `r`.
pub proof fn lemma_sorted_nodes_keep(r: Seq<DefNodeView>, s: Seq<DefNodeView>, x: DefNodeView)
    requires
        stable_sorted_nodes(r, s),
        s.contains(x),
    ensures
        r.contains(x),
{
    let p = with_id(x.id.0);
    let k = choose|k: int| 0 <= k < s.len() && s[k] == x;
    s.lemma_filter_contains(p, k);
    assert(r.filter(p) == s.filter(p));
    r.lemma_filter_contains_rev(p, x);
}

} // verus!
