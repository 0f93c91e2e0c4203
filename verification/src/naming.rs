//! Short display names for solver symbols.
use vstd::prelude::*;

use crate::expr::type_suffix;
use crate::text::{copy_str, ends_with_chars, last_occurrence, occurs_at, seq_contains, seq_ends_with, str_chars, str_eq, string_from_range};

verus! {

/// `s` without the leading copies of `c`.
pub open spec fn strip_leading(s: Seq<char>, c: char) -> Seq<char>
    decreases s.len(),
{
    if s.len() > 0 && s[0] == c {
        strip_leading(s.drop_first(), c)
    } else {
        s
    }
}

/// `s` without the trailing copies of `c`.
pub open spec fn strip_trailing(s: Seq<char>, c: char) -> Seq<char>
    decreases s.len(),
{
    if s.len() > 0 && s.last() == c {
        strip_trailing(s.drop_last(), c)
    } else {
        s
    }
}

/// `s` without the copies of `c` at either end (std's `str::trim_matches` with a char).
pub open spec fn trim_char(s: Seq<char>, c: char) -> Seq<char> {
    strip_trailing(strip_leading(s, c), c)
}

/// `s` without the repeated copies of the non-empty `p` at its end (std's `str::trim_end_matches`).
pub open spec fn strip_suffix_all(s: Seq<char>, p: Seq<char>) -> Seq<char>
    decreases s.len(),
{
    if p.len() > 0 && seq_ends_with(s, p) {
        strip_suffix_all(s.take(s.len() - p.len()), p)
    } else {
        s
    }
}

/// The display name of a solver symbol: its last path segment without backticks, with the
/// expression constructors spelled out and a trailing `Helper` dropped.
pub open spec fn compress_spec(input: Seq<char>) -> Seq<char> {
    let seg = trim_char(type_suffix(input), '`');
    if seg == "EApp"@ {
        "Apply"@
    } else if seg == "EIf"@ {
        "If"@
    } else if seg == "EWhile"@ {
        "While"@
    } else if seg == "EMap"@ {
        "Map"@
    } else if seg == "EGet"@ {
        "Get"@
    } else if seq_ends_with(seg, "Helper"@) {
        strip_suffix_all(seg, "Helper"@)
    } else {
        seg
    }
}

/// The bounds `lo..hi` of `v` without the copies of `c` at either end.
pub fn trim_char_bounds(v: &Vec<char>, c: char) -> (r: (usize, usize))
    ensures
        r.0 <= r.1 <= v.len(),
        v@.subrange(r.0 as int, r.1 as int) == trim_char(v@, c),
{
    let mut lo: usize = 0;
    assert(v@.skip(0) =~= v@);
    while lo < v.len() && v[lo] == c
        invariant
            lo <= v.len(),
            strip_leading(v@, c) == strip_leading(v@.skip(lo as int), c),
        decreases v.len() - lo,
    {
        assert(v@.skip(lo as int).drop_first() =~= v@.skip(lo + 1));
        lo += 1;
    }
    assert(strip_leading(v@.skip(lo as int), c) == v@.skip(lo as int));
    let ghost t = v@.skip(lo as int);
    let mut hi: usize = v.len();
    assert(t.take(t.len() as int) =~= t);
    while hi > lo && v[hi - 1] == c
        invariant
            lo <= hi <= v.len(),
            t == v@.skip(lo as int),
            strip_trailing(t, c) == strip_trailing(t.take(hi - lo), c),
        decreases hi,
    {
        assert(t.take(hi - lo).drop_last() =~= t.take(hi - lo - 1));
        assert(t.take(hi - lo).last() == v@[hi - 1]);
        hi -= 1;
    }
    let ghost u = t.take(hi - lo);
    if hi > lo {
        assert(u.last() == v@[hi - 1]);
    }
    assert(strip_trailing(u, c) == u);
    assert(u =~= v@.subrange(lo as int, hi as int));
    (lo, hi)
}

/// `s` without the copies of `c` at either end.
pub fn trim_char_str(s: &str, c: char) -> (r: String)
    ensures
        r@ == trim_char(s@, c),
{
    let v = str_chars(s);
    let (lo, hi) = trim_char_bounds(&v, c);
    string_from_range(&v, lo, hi)
}

fn strip_suffix_all_of(s: &str, p: &str) -> (r: String)
    requires
        p@.len() > 0,
    ensures
        r@ == strip_suffix_all(s@, p@),
{
    let v = str_chars(s);
    let pv = str_chars(p);
    let mut end: usize = v.len();
    assert(v@.take(end as int) =~= v@);
    loop
        invariant
            end <= v.len(),
            pv@ == p@,
            pv@.len() > 0,
            strip_suffix_all(s@, p@) == strip_suffix_all(v@.take(end as int), p@),
            v@ == s@,
        decreases end,
    {
        let cur = string_from_range(&v, 0, end);
        let cv = str_chars(cur.as_str());
        if pv.len() <= end && ends_with_chars(&cv, &pv) {
            assert(v@.take(end as int).take(end - pv@.len()) =~= v@.take(end - pv@.len()));
            end = end - pv.len();
        } else {
            assert(cv@ =~= v@.take(end as int));
            return cur;
        }
    }
}

/// The display name of a solver symbol.
pub fn compress_symbol_name(input: &str) -> (r: String)
    ensures
        r@ == compress_spec(input@),
{
    let suffix = crate::expr::type_suffix_of(input);
    let seg = trim_char_str(suffix.as_str(), '`');
    let s = seg.as_str();
    if str_eq(s, "EApp") {
        copy_str("Apply")
    } else if str_eq(s, "EIf") {
        copy_str("If")
    } else if str_eq(s, "EWhile") {
        copy_str("While")
    } else if str_eq(s, "EMap") {
        copy_str("Map")
    } else if str_eq(s, "EGet") {
        copy_str("Get")
    } else if crate::text::str_ends_with(s, "Helper") {
        proof {
            reveal_strlit("Helper");
        }
        strip_suffix_all_of(s, "Helper")
    } else {
        seg
    }
}

/// The last segment of `c`, or of a path ending in `::` and `c`, is `c` itself, when `c` is not
/// empty and holds no `:`.
proof fn lemma_last_segment(p: Seq<char>, c: Seq<char>)
    requires
        c.len() > 0,
        forall|i: int| 0 <= i < c.len() ==> c[i] != ':',
    ensures
        type_suffix(c) == c,
        type_suffix(p + "::"@ + c) == c,
{
    reveal_strlit("::");
    reveal(last_occurrence);
    let sep = "::"@;
    assert forall|j: int| !#[trigger] occurs_at(c, sep, j) by {
        if occurs_at(c, sep, j) {
            assert(c.subrange(j, j + 2)[0] == c[j]);
        }
    }
    assert(!seq_contains(c, sep));
    let h = p + sep + c;
    let n = p.len() as int;
    assert(h.subrange(n, n + 2) =~= sep);
    assert(occurs_at(h, sep, n));
    assert forall|j: int| n < j <= h.len() implies !#[trigger] occurs_at(h, sep, j) by {
        if occurs_at(h, sep, j) {
            if j == n + 1 {
                assert(h.subrange(j, j + 2)[1] == h[n + 2]);
                assert(h[n + 2] == c[0]);
            } else {
                assert(h.subrange(j, j + 2)[0] == h[j]);
                assert(h[j] == c[j - n - 2]);
            }
        }
    }
    let i = choose|i: int| occurs_at(h, sep, i) && forall|j: int| i < j <= h.len() ==> !occurs_at(h, sep, j);
    assert(i == n) by {
        if i < n {
            assert(!occurs_at(h, sep, n));
        }
    }
    assert(h.skip(n + 2) =~= c);
}

proof fn lemma_constructor_name(p: Seq<char>, c: Seq<char>)
    requires
        c.len() > 0,
        forall|i: int| 0 <= i < c.len() ==> c[i] != ':' && c[i] != '`',
    ensures
        trim_char(type_suffix(c), '`') == c,
        trim_char(type_suffix(p + "::"@ + c), '`') == c,
{
    lemma_last_segment(p, c);
    assert(strip_leading(c, '`') == c);
    assert(strip_trailing(c, '`') == c);
}

proof fn lemma_spelled_out(p: Seq<char>, c: Seq<char>, name: Seq<char>)
    requires
        (c == "EApp"@ && name == "Apply"@) || (c == "EIf"@ && name == "If"@) || (c == "EWhile"@ && name == "While"@) || (c
            == "EMap"@ && name == "Map"@) || (c == "EGet"@ && name == "Get"@),
    ensures
        compress_spec(c) == name,
        compress_spec(p + "::"@ + c) == name,
{
    reveal_strlit("EApp");
    reveal_strlit("EIf");
    reveal_strlit("EWhile");
    reveal_strlit("EMap");
    reveal_strlit("EGet");
    assert(c.len() > 0);
    assert forall|i: int| 0 <= i < c.len() implies c[i] != ':' && c[i] != '`' by {}
    lemma_constructor_name(p, c);
    assert("EApp"@.len() == 4 && "EIf"@.len() == 3 && "EWhile"@.len() == 6 && "EMap"@.len() == 4 && "EGet"@.len() == 4);
    assert("EMap"@ != "EApp"@) by {
        assert("EMap"@[1] != "EApp"@[1]);
    }
    assert("EGet"@ != "EApp"@) by {
        assert("EGet"@[1] != "EApp"@[1]);
    }
    assert("EGet"@ != "EMap"@) by {
        assert("EGet"@[1] != "EMap"@[1]);
    }
}

/// The expression constructors are spelled out in display names, alone or at the end of a
/// path: `EApp` is `Apply`, `EIf` is `If`, `EWhile` is `While`, `EMap` is `Map`, `EGet` is `Get`.
pub proof fn constructors_are_spelled_out(p: Seq<char>)
    ensures
        compress_spec("EApp"@) == "Apply"@ && compress_spec(p + "::"@ + "EApp"@) == "Apply"@,
        compress_spec("EIf"@) == "If"@ && compress_spec(p + "::"@ + "EIf"@) == "If"@,
        compress_spec("EWhile"@) == "While"@ && compress_spec(p + "::"@ + "EWhile"@) == "While"@,
        compress_spec("EMap"@) == "Map"@ && compress_spec(p + "::"@ + "EMap"@) == "Map"@,
        compress_spec("EGet"@) == "Get"@ && compress_spec(p + "::"@ + "EGet"@) == "Get"@,
{
    lemma_spelled_out(p, "EApp"@, "Apply"@);
    lemma_spelled_out(p, "EIf"@, "If"@);
    lemma_spelled_out(p, "EWhile"@, "While"@);
    lemma_spelled_out(p, "EMap"@, "Map"@);
    lemma_spelled_out(p, "EGet"@, "Get"@);
}

/// A helper's display name drops its `Helper` ending, alone or at the end of a path, when what
/// is left is not empty and does not itself end in `Helper`.
pub proof fn helper_names_drop_their_ending(p: Seq<char>, n: Seq<char>)
    requires
        n.len() > 0,
        forall|i: int| 0 <= i < n.len() ==> n[i] != ':' && n[i] != '`',
        !seq_ends_with(n, "Helper"@),
    ensures
        compress_spec(n + "Helper"@) == n,
        compress_spec(p + "::"@ + (n + "Helper"@)) == n,
{
    reveal_strlit("Helper");
    reveal_strlit("EApp");
    reveal_strlit("EIf");
    reveal_strlit("EWhile");
    reveal_strlit("EMap");
    reveal_strlit("EGet");
    let c = n + "Helper"@;
    assert forall|i: int| 0 <= i < c.len() implies c[i] != ':' && c[i] != '`' by {
        if i >= n.len() {
            assert(c[i] == "Helper"@[i - n.len()]);
        }
    }
    lemma_constructor_name(p, c);
    assert(c.len() >= 7);
    assert(c.subrange(c.len() - 6, c.len() as int) =~= "Helper"@);
    assert(seq_ends_with(c, "Helper"@));
    assert(c.take(c.len() - 6) =~= n);
    assert(strip_suffix_all(n, "Helper"@) == n);
}

} // verus!
