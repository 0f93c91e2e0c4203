//! Ranking rows for the "top N" tables of a profile: by a major and a minor figure, both
//! descending, then by label, ascending; rows with equal keys keep their order.
use vstd::prelude::*;

use crate::text::{lemma_seq_lt_asymmetric, lemma_seq_lt_total, lemma_seq_lt_transitive, seq_lt, str_lt};

verus! {

/// The key a row is ranked by.
pub struct RankKey {
    pub major: u64,
    pub minor: u64,
    pub label: String,
}

/// A rank key as values.
pub struct RankKeyView {
    pub major: int,
    pub minor: int,
    pub label: Seq<char>,
}

impl View for RankKey {
    type V = RankKeyView;

    open spec fn view(&self) -> RankKeyView {
        RankKeyView { major: self.major as int, minor: self.minor as int, label: self.label@ }
    }
}

pub open spec fn key_views(keys: Seq<RankKey>) -> Seq<RankKeyView> {
    keys.map_values(|k: RankKey| k@)
}

/// `a` ranks strictly before `b`: a larger major figure, then a larger minor figure, then a
/// smaller label.
pub open spec fn ranks_before(a: RankKeyView, b: RankKeyView) -> bool {
    a.major > b.major || (a.major == b.major && (a.minor > b.minor || (a.minor == b.minor && seq_lt(
        a.label,
        b.label,
    ))))
}

/// `p` lists the positions of `k` in rank order, positions with equal keys in increasing order.
pub open spec fn is_ranking(k: Seq<RankKeyView>, p: Seq<int>) -> bool {
    &&& p.len() == k.len()
    &&& forall|i: int| 0 <= i < p.len() ==> 0 <= #[trigger] p[i] < k.len()
    &&& forall|i: int, j: int| 0 <= i < j < p.len() ==> p[i] != p[j]
    &&& forall|i: int, j: int| 0 <= i < j < p.len() ==> !ranks_before(k[p[j]], k[p[i]])
    &&& forall|i: int, j: int|
        0 <= i < j < p.len() && !ranks_before(k[p[i]], k[p[j]]) ==> p[i] < p[j]
}

/// The rows of `rows` at the positions `p`, in that order.
pub open spec fn pick<T>(rows: Seq<T>, p: Seq<int>) -> Seq<T> {
    p.map_values(|i: int| rows[i])
}

pub open spec fn as_ints(p: Seq<usize>) -> Seq<int> {
    p.map_values(|i: usize| i as int)
}

pub proof fn lemma_ranks_before_asymmetric(a: RankKeyView, b: RankKeyView)
    requires
        ranks_before(a, b),
    ensures
        !ranks_before(b, a),
{
    if a.major == b.major && a.minor == b.minor && seq_lt(a.label, b.label) {
        lemma_seq_lt_asymmetric(a.label, b.label);
    }
}

/// Strictly before one that is not before a third is strictly before the third.
pub proof fn lemma_ranks_before_then_not_after(a: RankKeyView, b: RankKeyView, c: RankKeyView)
    requires
        ranks_before(a, b),
        !ranks_before(c, b),
    ensures
        ranks_before(a, c),
{
    if b.major == c.major && b.minor == c.minor && b.label != c.label {
        lemma_seq_lt_total(b.label, c.label);
    }
    if a.major == b.major && a.minor == b.minor && b.major == c.major && b.minor == c.minor {
        if b.label != c.label {
            lemma_seq_lt_transitive(a.label, b.label, c.label);
        }
    }
}

/// Whether `a` ranks strictly before `b`.
pub fn key_ranks_before(a: &RankKey, b: &RankKey) -> (r: bool)
    ensures
        r == ranks_before(a@, b@),
{
    if a.major != b.major {
        a.major > b.major
    } else if a.minor != b.minor {
        a.minor > b.minor
    } else {
        str_lt(a.label.as_str(), b.label.as_str())
    }
}

/// The positions of `keys` in rank order (a stable sort).
pub fn rank_order(keys: &Vec<RankKey>) -> (p: Vec<usize>)
    ensures
        is_ranking(key_views(keys@), as_ints(p@)),
{
    let ghost k = key_views(keys@);
    let mut p: Vec<usize> = Vec::new();
    let mut i: usize = 0;
    while i < keys.len()
        invariant
            i <= keys.len(),
            k == key_views(keys@),
            k.len() == keys.len(),
            is_ranking(k.take(i as int), as_ints(p@)),
            forall|a: int| 0 <= a < p.len() ==> #[trigger] p@[a] < i,
        decreases keys.len() - i,
    {
        let mut pos: usize = 0;
        while pos < p.len() && !key_ranks_before(&keys[i], &keys[p[pos]])
            invariant
                pos <= p.len(),
                i < keys.len(),
                k == key_views(keys@),
                forall|a: int| 0 <= a < p.len() ==> #[trigger] p@[a] < i,
                forall|a: int| 0 <= a < pos ==> !ranks_before(k[i as int], k[p@[a] as int]),
            decreases p.len() - pos,
        {
            pos += 1;
        }
        proof {
            let old_p = as_ints(p@);
            let kt = k.take(i as int);
            let kn = k.take(i + 1);
            let np = old_p.insert(pos as int, i as int);
            assert forall|a: int| 0 <= a < old_p.len() implies #[trigger] kn[old_p[a]] == kt[old_p[a]] && kt[old_p[a]] == k[old_p[a]] by {
                assert(p@[a] < i);
            }
            if pos < p.len() {
                assert(ranks_before(k[i as int], k[p@[pos as int] as int]));
                assert forall|a: int| pos <= a < old_p.len() implies ranks_before(k[i as int], k[old_p[a]]) by {
                    if a > pos {
                        assert(!ranks_before(kt[old_p[a]], kt[old_p[pos as int]]));
                        lemma_ranks_before_then_not_after(k[i as int], k[old_p[pos as int]], k[old_p[a]]);
                    }
                }
            }
            assert forall|x: int, y: int| 0 <= x < y < np.len() implies !ranks_before(kn[np[y]], kn[np[x]]) by {
                if x < pos && y == pos {
                } else if x == pos && y > pos {
                    lemma_ranks_before_asymmetric(k[i as int], k[old_p[y - 1]]);
                } else if x < pos && y > pos {
                    assert(!ranks_before(kt[old_p[y - 1]], kt[old_p[x]]));
                } else if x > pos {
                    assert(!ranks_before(kt[old_p[y - 1]], kt[old_p[x - 1]]));
                } else {
                    assert(!ranks_before(kt[old_p[y]], kt[old_p[x]]));
                }
            }
            assert forall|x: int, y: int|
                0 <= x < y < np.len() && !ranks_before(kn[np[x]], kn[np[y]]) implies np[x] < np[y] by {
                if x == pos {
                } else if y == pos {
                    assert(p@[x] < i);
                } else if x < pos && y > pos {
                    assert(!ranks_before(kt[old_p[x]], kt[old_p[y - 1]]) ==> old_p[x] < old_p[y - 1]);
                } else if x > pos {
                    assert(!ranks_before(kt[old_p[x - 1]], kt[old_p[y - 1]]) ==> old_p[x - 1] < old_p[y - 1]);
                } else {
                    assert(!ranks_before(kt[old_p[x]], kt[old_p[y]]) ==> old_p[x] < old_p[y]);
                }
            }
            assert forall|x: int, y: int| 0 <= x < y < np.len() implies np[x] != np[y] by {
                if x == pos {
                    assert(p@[y - 1] < i);
                } else if y == pos {
                    assert(p@[x] < i);
                } else if x < pos && y > pos {
                    assert(old_p[x] != old_p[y - 1]);
                } else if x > pos {
                    assert(old_p[x - 1] != old_p[y - 1]);
                } else {
                    assert(old_p[x] != old_p[y]);
                }
            }
            assert(as_ints(p@.insert(pos as int, i)) =~= np);
        }
        p.insert(pos, i);
        i += 1;
    }
    assert(k.take(i as int) =~= k);
    p
}

} // verus!
