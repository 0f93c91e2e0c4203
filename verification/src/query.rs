//! Owner queries: what a collection run looks for and how names are matched.
use vstd::prelude::*;

use crate::text::{copy_str, is_ascii_digit_char, seq_contains, seq_ends_with, str_chars, str_contains, str_ends_with, str_eq, push_str};

verus! {

broadcast use vstd::string::group_string_axioms;

/// Which owners a query targets.
#[derive(Debug, Clone, Copy, PartialEq, Eq, Structural)]
pub enum QueryTargetKind {
    AnyOwner,
    ImplOwner,
    AssocItemOwner,
}

pub open spec fn target_kind_label(k: QueryTargetKind) -> Seq<char> {
    match k {
        QueryTargetKind::AnyOwner => "owner"@,
        QueryTargetKind::ImplOwner => "impl"@,
        QueryTargetKind::AssocItemOwner => "assoc_item"@,
    }
}

/// The target kind a label names; no label means `owner`, an unknown one any owner.
pub open spec fn target_kind_from(value: Option<Seq<char>>) -> QueryTargetKind {
    let t = match value {
        Some(v) => v,
        None => "owner"@,
    };
    if t == "impl"@ {
        QueryTargetKind::ImplOwner
    } else if t == "assoc_item"@ {
        QueryTargetKind::AssocItemOwner
    } else {
        QueryTargetKind::AnyOwner
    }
}

impl QueryTargetKind {
    pub fn from_label(value: Option<&str>) -> (k: Self)
        ensures
            k == target_kind_from(match value {
                Some(v) => Some(v@),
                None => None,
            }),
    {
        let t = match value {
            Some(v) => v,
            None => "owner",
        };
        if str_eq(t, "impl") {
            QueryTargetKind::ImplOwner
        } else if str_eq(t, "assoc_item") {
            QueryTargetKind::AssocItemOwner
        } else {
            QueryTargetKind::AnyOwner
        }
    }

    pub fn label(self) -> (s: &'static str)
        ensures
            s@ == target_kind_label(self),
    {
        match self {
            QueryTargetKind::AnyOwner => "owner",
            QueryTargetKind::ImplOwner => "impl",
            QueryTargetKind::AssocItemOwner => "assoc_item",
        }
    }
}

/// How an owner path is compared with a query.
#[derive(Debug, Clone, Copy, PartialEq, Eq, Structural)]
pub enum QueryMatchKind {
    Substring,
    Suffix,
    Exact,
    DefId,
}

pub open spec fn match_kind_label(k: QueryMatchKind) -> Seq<char> {
    match k {
        QueryMatchKind::Substring => "substring"@,
        QueryMatchKind::Suffix => "suffix"@,
        QueryMatchKind::Exact => "exact"@,
        QueryMatchKind::DefId => "def_id"@,
    }
}

/// The match kind a label names; no label means `exact`, an unknown one suffix matching.
pub open spec fn match_kind_from(value: Option<Seq<char>>) -> QueryMatchKind {
    let t = match value {
        Some(v) => v,
        None => "exact"@,
    };
    if t == "substring"@ {
        QueryMatchKind::Substring
    } else if t == "exact"@ {
        QueryMatchKind::Exact
    } else if t == "def_id"@ {
        QueryMatchKind::DefId
    } else {
        QueryMatchKind::Suffix
    }
}

impl QueryMatchKind {
    pub fn from_label(value: Option<&str>) -> (k: Self)
        ensures
            k == match_kind_from(match value {
                Some(v) => Some(v@),
                None => None,
            }),
    {
        let t = match value {
            Some(v) => v,
            None => "exact",
        };
        if str_eq(t, "substring") {
            QueryMatchKind::Substring
        } else if str_eq(t, "exact") {
            QueryMatchKind::Exact
        } else if str_eq(t, "def_id") {
            QueryMatchKind::DefId
        } else {
            QueryMatchKind::Suffix
        }
    }

    pub fn label(self) -> (s: &'static str)
        ensures
            s@ == match_kind_label(self),
    {
        match self {
            QueryMatchKind::Substring => "substring",
            QueryMatchKind::Suffix => "suffix",
            QueryMatchKind::Exact => "exact",
            QueryMatchKind::DefId => "def_id",
        }
    }
}

/// A label names back the target kind it was made from.
pub proof fn target_kind_label_roundtrip(k: QueryTargetKind)
    ensures
        target_kind_from(Some(target_kind_label(k))) == k,
{
    reveal_strlit("owner");
    reveal_strlit("impl");
    reveal_strlit("assoc_item");
    assert("owner"@ != "impl"@ && "owner"@ != "assoc_item"@ && "impl"@ != "assoc_item"@) by {
        assert("owner"@.len() != "impl"@.len());
        assert("owner"@.len() != "assoc_item"@.len());
        assert("impl"@.len() != "assoc_item"@.len());
    }
}

/// A label names back the match kind it was made from.
pub proof fn match_kind_label_roundtrip(k: QueryMatchKind)
    ensures
        match_kind_from(Some(match_kind_label(k))) == k,
{
    reveal_strlit("substring");
    reveal_strlit("suffix");
    reveal_strlit("exact");
    reveal_strlit("def_id");
    assert("suffix"@ != "substring"@) by {
        assert("suffix"@.len() != "substring"@.len());
    }
    assert("suffix"@ != "exact"@) by {
        assert("suffix"@.len() != "exact"@.len());
    }
    assert("suffix"@ != "def_id"@) by {
        assert("suffix"@[0] != "def_id"@[0]);
    }
    assert("substring"@ != "exact"@) by {
        assert("substring"@.len() != "exact"@.len());
    }
    assert("substring"@ != "def_id"@) by {
        assert("substring"@.len() != "def_id"@.len());
    }
    assert("exact"@ != "def_id"@) by {
        assert("exact"@.len() != "def_id"@.len());
    }
}

/// A query for the owners whose path matches `owner`.
#[derive(Debug, Clone, PartialEq, Eq)]
pub struct OwnerQuerySpec {
    pub owner: String,
    pub target_kind: QueryTargetKind,
    pub match_kind: QueryMatchKind,
}

/// A query for the definition tree of the owners whose path matches `owner`.
#[derive(Debug, Clone, PartialEq, Eq)]
pub struct DefinitionTreeQuerySpec {
    pub owner: String,
    pub match_kind: QueryMatchKind,
    pub max_depth: usize,
}

/// Whether `owner_path` matches `query` under `match_kind`.
pub open spec fn owner_path_matches_spec(owner_path: Seq<char>, query: Seq<char>, match_kind: QueryMatchKind) -> bool {
    match match_kind {
        QueryMatchKind::Substring => seq_contains(owner_path, query),
        QueryMatchKind::Suffix => owner_path == query || seq_ends_with(owner_path, "::"@ + query),
        QueryMatchKind::Exact => owner_path == query,
        QueryMatchKind::DefId => false,
    }
}

pub fn owner_path_matches(owner_path: &str, query: &str, match_kind: QueryMatchKind) -> (b: bool)
    ensures
        b == owner_path_matches_spec(owner_path@, query@, match_kind),
{
    match match_kind {
        QueryMatchKind::Substring => str_contains(owner_path, query),
        QueryMatchKind::Suffix => {
            if str_eq(owner_path, query) {
                true
            } else {
                let mut suffix = String::new();
                push_str(&mut suffix, "::");
                push_str(&mut suffix, query);
                assert(suffix@ =~= "::"@ + query@);
                str_ends_with(owner_path, suffix.as_str())
            }
        },
        QueryMatchKind::Exact => str_eq(owner_path, query),
        QueryMatchKind::DefId => false,
    }
}

/// The value of a string of decimal digits.
pub open spec fn digits_value(s: Seq<char>) -> nat
    decreases s.len(),
{
    if s.len() == 0 {
        0
    } else {
        digits_value(s.drop_last()) * 10 + ((s.last() as u32) - 48) as nat
    }
}

/// The text after an optional leading `+`.
pub open spec fn unsigned_body(s: Seq<char>) -> Seq<char> {
    if s.len() > 0 && s[0] == '+' {
        s.drop_first()
    } else {
        s
    }
}

/// Every character is an ASCII digit.
pub open spec fn all_digits(d: Seq<char>) -> bool {
    forall|i: int| 0 <= i < d.len() ==> is_ascii_digit_char(#[trigger] d[i])
}

/// What `str::parse::<u32>` accepts: an optional `+`, then one or more digits whose value fits.
pub open spec fn parse_u32_spec(s: Seq<char>) -> Option<u32> {
    let d = unsigned_body(s);
    if d.len() > 0 && all_digits(d) && digits_value(d) <= u32::MAX {
        Some(digits_value(d) as u32)
    } else {
        None
    }
}

proof fn lemma_digits_value_grows(s: Seq<char>, i: int)
    requires
        0 <= i <= s.len(),
        forall|j: int| 0 <= j < s.len() ==> is_ascii_digit_char(#[trigger] s[j]),
    ensures
        digits_value(s.take(i)) <= digits_value(s),
    decreases s.len() - i,
{
    if i < s.len() {
        assert(s.drop_last().take(i) =~= s.take(i));
        assert forall|j: int| 0 <= j < s.drop_last().len() implies is_ascii_digit_char(#[trigger] s.drop_last()[j]) by {
            assert(s.drop_last()[j] == s[j]);
        }
        lemma_digits_value_grows(s.drop_last(), i);
        assert(digits_value(s.drop_last()) <= digits_value(s.drop_last()) * 10) by (nonlinear_arith);
    } else {
        assert(s.take(i) =~= s);
    }
}

/// What `str::parse::<usize>` accepts: an optional `+`, then one or more digits whose value fits.
pub open spec fn parse_usize_spec(s: Seq<char>) -> Option<usize> {
    let d = unsigned_body(s);
    if d.len() > 0 && all_digits(d) && digits_value(d) <= usize::MAX {
        Some(digits_value(d) as usize)
    } else {
        None
    }
}

/// `text` read as a `usize`, as `str::parse::<usize>` reads it.
pub fn parse_usize(text: &str) -> (r: Option<usize>)
    ensures
        r == parse_usize_spec(text@),
{
    let s = str_chars(text);
    let start: usize = if s.len() > 0 && s[0] == '+' {
        1
    } else {
        0
    };
    let ghost d = s@.skip(start as int);
    assert(d =~= unsigned_body(text@));
    if start == s.len() {
        return None;
    }
    let mut value: usize = 0;
    let mut i = start;
    while i < s.len()
        invariant
            start <= i <= s.len(),
            s@ == text@,
            d == s@.skip(start as int),
            d == unsigned_body(text@),
            forall|j: int| 0 <= j < i - start ==> is_ascii_digit_char(#[trigger] d[j]),
            value == digits_value(d.take(i - start)),
        decreases s.len() - i,
    {
        let c = s[i];
        if !('0' <= c && c <= '9') {
            assert(d[i - start] == s@[i as int]);
            assert(!is_ascii_digit_char(d[i - start]));
            assert(!all_digits(d));
            return None;
        }
        let digit = (c as u32 - 48) as usize;
        assert(d.take(i - start + 1).drop_last() =~= d.take(i - start));
        assert(d.take(i - start + 1).last() == c);
        let next = value.checked_mul(10);
        let next = match next {
            Some(m) => m.checked_add(digit),
            None => None,
        };
        match next {
            Some(n) => {
                value = n;
            },
            None => {
                proof {
                    if all_digits(d) {
                        lemma_digits_value_grows(d, i - start + 1);
                    }
                }
                return None;
            },
        }
        i += 1;
    }
    assert(d.take(s.len() - start) =~= d);
    Some(value)
}

/// `text` read as a `u32`, as `str::parse::<u32>` reads it.
pub fn parse_u32(text: &str) -> (r: Option<u32>)
    ensures
        r == parse_u32_spec(text@),
{
    let s = str_chars(text);
    let start: usize = if s.len() > 0 && s[0] == '+' {
        1
    } else {
        0
    };
    let ghost d = s@.skip(start as int);
    assert(d =~= unsigned_body(text@));
    if start == s.len() {
        return None;
    }
    let mut value: u64 = 0;
    let mut i = start;
    while i < s.len()
        invariant
            start <= i <= s.len(),
            s@ == text@,
            d == s@.skip(start as int),
            d == unsigned_body(text@),
            forall|j: int| 0 <= j < i - start ==> is_ascii_digit_char(#[trigger] d[j]),
            value == digits_value(d.take(i - start)),
            value <= u32::MAX,
        decreases s.len() - i,
    {
        let c = s[i];
        if !('0' <= c && c <= '9') {
            assert(d[i - start] == s@[i as int]);
            assert(!is_ascii_digit_char(d[i - start]));
            assert(!all_digits(d));
            return None;
        }
        let digit = (c as u32 - 48) as u64;
        assert(d.take(i - start + 1).drop_last() =~= d.take(i - start));
        assert(d.take(i - start + 1).last() == c);
        let next = value * 10 + digit;
        if next > 4294967295 {
            proof {
                assert(d.take(i - start + 1).drop_last() =~= d.take(i - start));
                if all_digits(d) {
                    lemma_digits_value_grows(d, i - start + 1);
                }
            }
            return None;
        }
        value = next;
        i += 1;
    }
    assert(d.take(s.len() - start) =~= d);
    Some(value as u32)
}

pub fn def_index_matches(local_def_index: u32, query: &str) -> (b: bool)
    ensures
        b == (parse_u32_spec(query@) == Some(local_def_index)),
{
    match parse_u32(query) {
        Some(index) => index == local_def_index,
        None => false,
    }
}

/// How the ways of matching an owner path relate: an exact match is equality of the two texts;
/// every exact match is a suffix match and every suffix match a substring match; a path that
/// ends in `::` and the query matches it as a suffix but never exactly; matching by def index
/// never matches a path.
pub proof fn owner_match_kinds_relate(o: Seq<char>, q: Seq<char>, p: Seq<char>)
    ensures
        owner_path_matches_spec(o, q, QueryMatchKind::Exact) <==> o == q,
        owner_path_matches_spec(o, q, QueryMatchKind::Exact) ==> owner_path_matches_spec(o, q, QueryMatchKind::Suffix),
        owner_path_matches_spec(o, q, QueryMatchKind::Suffix) ==> owner_path_matches_spec(o, q, QueryMatchKind::Substring),
        owner_path_matches_spec(p + "::"@ + q, q, QueryMatchKind::Suffix),
        !owner_path_matches_spec(p + "::"@ + q, q, QueryMatchKind::Exact),
        !owner_path_matches_spec(o, q, QueryMatchKind::DefId),
{
    reveal_strlit("::");
    let sep = "::"@;
    if o == q {
        assert(o.subrange(0, q.len() as int) =~= q);
        assert(crate::text::occurs_at(o, q, 0));
    }
    if seq_ends_with(o, sep + q) {
        let start = o.len() - (sep + q).len();
        let i = start + 2;
        assert(o.subrange(start, o.len() as int) =~= sep + q);
        assert(o.subrange(i, i + q.len()) =~= q) by {
            assert forall|k: int| 0 <= k < q.len() implies o.subrange(i, i + q.len())[k] == q[k] by {
                assert(o.subrange(start, o.len() as int)[k + 2] == (sep + q)[k + 2]);
            }
        }
        assert(crate::text::occurs_at(o, q, i));
    }
    let t = p + sep + q;
    assert(t.subrange(t.len() - (sep + q).len(), t.len() as int) =~= sep + q);
    assert(t.len() > q.len());
}

} // verus!
