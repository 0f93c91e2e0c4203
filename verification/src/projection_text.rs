//! Reading type-level source text: splitting at top-level delimiters, matching brackets, and
//! finding the projections (`<T as Trait<..>>::Assoc`) and trait bounds it names.
use vstd::prelude::*;

use crate::text::{first_occurrence, is_ws, seq_contains, seq_starts_with, str_chars, trim};

verus! {

broadcast use vstd::seq_lib::group_seq_properties;

// ---------------------------------------------------------------------------
// Nesting
// ---------------------------------------------------------------------------

pub open spec fn is_bracket(c: char) -> bool {
    c == '<' || c == '>' || c == '(' || c == ')' || c == '[' || c == ']'
}

/// The nesting depths of angle brackets, parentheses and square brackets after `s`.
pub open spec fn nest(s: Seq<char>) -> (int, int, int)
    decreases s.len(),
{
    if s.len() == 0 {
        (0, 0, 0)
    } else {
        let (a, p, b) = nest(s.drop_last());
        let c = s.last();
        if c == '<' {
            (a + 1, p, b)
        } else if c == '>' {
            (a - 1, p, b)
        } else if c == '(' {
            (a, p + 1, b)
        } else if c == ')' {
            (a, p - 1, b)
        } else if c == '[' {
            (a, p, b + 1)
        } else if c == ']' {
            (a, p, b - 1)
        } else {
            (a, p, b)
        }
    }
}

/// Position `i` of `s` lies outside every bracket.
pub open spec fn at_top(s: Seq<char>, i: int) -> bool {
    nest(s.take(i)) == (0int, 0int, 0int)
}

/// Depth counters as the scans keep them.
pub struct Depths {
    pub angle: i128,
    pub paren: i128,
    pub bracket: i128,
}

pub open spec fn depths_are(d: Depths, n: (int, int, int)) -> bool {
    d.angle == n.0 && d.paren == n.1 && d.bracket == n.2
}

pub proof fn lemma_nest_bounded(s: Seq<char>)
    ensures
        -s.len() <= nest(s).0 <= s.len(),
        -s.len() <= nest(s).1 <= s.len(),
        -s.len() <= nest(s).2 <= s.len(),
    decreases s.len(),
{
    if s.len() > 0 {
        lemma_nest_bounded(s.drop_last());
    }
}

/// The depths after one more character.
fn step_depths(d: &mut Depths, c: char, Ghost(s): Ghost<Seq<char>>)
    requires
        depths_are(*old(d), nest(s)),
        s.len() <= usize::MAX,
    ensures
        depths_are(*final(d), nest(s.push(c))),
{
    proof {
        lemma_nest_bounded(s);
        assert(s.push(c).drop_last() =~= s);
    }
    if c == '<' {
        d.angle = d.angle + 1;
    } else if c == '>' {
        d.angle = d.angle - 1;
    } else if c == '(' {
        d.paren = d.paren + 1;
    } else if c == ')' {
        d.paren = d.paren - 1;
    } else if c == '[' {
        d.bracket = d.bracket + 1;
    } else if c == ']' {
        d.bracket = d.bracket - 1;
    }
}

// ---------------------------------------------------------------------------
// Splitting at a top-level delimiter
// ---------------------------------------------------------------------------

/// `s` splits at position `i`: its delimiter, outside every bracket.
pub open spec fn splits_at(s: Seq<char>, d: char, i: int) -> bool {
    0 <= i < s.len() && s[i] == d && !is_bracket(d) && at_top(s, i)
}

/// `ps` with the trimmed `piece` added when it is not empty.
pub open spec fn push_piece(ps: Seq<Seq<char>>, piece: Seq<char>) -> Seq<Seq<char>> {
    if trim(piece).len() > 0 {
        ps.push(trim(piece))
    } else {
        ps
    }
}

/// The pieces found in the first `n` characters and where the open piece starts.
pub open spec fn split_state(s: Seq<char>, d: char, n: nat) -> (Seq<Seq<char>>, int)
    decreases n,
{
    if n == 0 {
        (Seq::empty(), 0)
    } else {
        let (ps, st) = split_state(s, d, (n - 1) as nat);
        if splits_at(s, d, n - 1) {
            (push_piece(ps, s.subrange(st, n - 1)), n as int)
        } else {
            (ps, st)
        }
    }
}

proof fn lemma_split_state_short(s: Seq<char>, d: char, n: nat)
    requires
        n <= s.len(),
    ensures
        0 <= split_state(s, d, n).1 <= n,
        forall|k: int| 0 <= k < split_state(s, d, n).0.len() ==> (#[trigger] split_state(s, d, n).0[k]).len() < s.len(),
    decreases n,
{
    if n > 0 {
        lemma_split_state_short(s, d, (n - 1) as nat);
        let (ps, st) = split_state(s, d, (n - 1) as nat);
        crate::text::lemma_trim_shorter(s.subrange(st, n - 1));
    }
}

/// No piece is longer than the text it came from.
pub proof fn lemma_split_pieces_short(s: Seq<char>, d: char)
    ensures
        forall|k: int| 0 <= k < split_spec(s, d).len() ==> (#[trigger] split_spec(s, d)[k]).len() <= s.len(),
{
    lemma_split_state_short(s, d, s.len());
    let (ps, st) = split_state(s, d, s.len());
    crate::text::lemma_trim_shorter(s.skip(st));
}

/// The trimmed, non-empty pieces of `s` between its top-level delimiters.
pub open spec fn split_spec(s: Seq<char>, d: char) -> Seq<Seq<char>> {
    let (ps, st) = split_state(s, d, s.len());
    push_piece(ps, s.skip(st))
}

proof fn lemma_split_state_start(s: Seq<char>, d: char, n: nat)
    requires
        n <= s.len(),
    ensures
        0 <= split_state(s, d, n).1 <= n,
    decreases n,
{
    if n > 0 {
        lemma_split_state_start(s, d, (n - 1) as nat);
    }
}

pub fn push_trimmed(out: &mut Vec<String>, v: &Vec<char>, lo: usize, hi: usize)
    requires
        lo <= hi <= v.len(),
    ensures
        crate::text::texts(final(out)@) == push_piece(crate::text::texts(old(out)@), v@.subrange(lo as int, hi as int)),
{
    let piece = crate::text::slice_range(v, lo, hi);
    let t = crate::text::trim_chars(&piece);
    let ghost before = out@;
    if t.len() > 0 {
        out.push(crate::text::string_from_chars(&t));
        assert(crate::text::texts(out@) =~= crate::text::texts(before).push(t@));
    }
}

/// The trimmed, non-empty pieces of `v` between its top-level delimiters (see [`split_spec`]).
pub fn split_chars(v: &Vec<char>, delimiter: char) -> (r: Vec<String>)
    ensures
        crate::text::texts(r@) == split_spec(v@, delimiter),
{
    let mut out: Vec<String> = Vec::new();
    let mut start: usize = 0;
    let mut d = Depths { angle: 0, paren: 0, bracket: 0 };
    let mut i: usize = 0;
    assert(v@.take(0) =~= Seq::<char>::empty());
    assert(crate::text::texts(out@) =~= Seq::<Seq<char>>::empty());
    while i < v.len()
        invariant
            i <= v.len(),
            depths_are(d, nest(v@.take(i as int))),
            (crate::text::texts(out@), start as int) == split_state(v@, delimiter, i as nat),
            start <= i,
        decreases v.len() - i,
    {
        let c = v[i];
        let bracket = c == '<' || c == '>' || c == '(' || c == ')' || c == '[' || c == ']';
        if c == delimiter && !bracket && d.angle == 0 && d.paren == 0 && d.bracket == 0 {
            push_trimmed(&mut out, v, start, i);
            start = i + 1;
        }
        assert(v@.take(i + 1) =~= v@.take(i as int).push(c));
        step_depths(&mut d, c, Ghost(v@.take(i as int)));
        i += 1;
    }
    push_trimmed(&mut out, v, start, v.len());
    assert(v@.subrange(start as int, v.len() as int) =~= v@.skip(start as int));
    out
}

/// The trimmed, non-empty pieces of `source` between its top-level `delimiter`s.
pub fn split_top_level(source: &str, delimiter: char) -> (r: Vec<String>)
    ensures
        crate::text::texts(r@) == split_spec(source@, delimiter),
{
    let v = str_chars(source);
    split_chars(&v, delimiter)
}

// ---------------------------------------------------------------------------
// Brackets and positions
// ---------------------------------------------------------------------------

/// The number of `open` less the number of `close` in `s`.
pub open spec fn balance(s: Seq<char>, open: char, close: char) -> int
    decreases s.len(),
{
    if s.len() == 0 {
        0
    } else {
        balance(s.drop_last(), open, close) + if s.last() == open {
            1int
        } else if s.last() == close {
            -1int
        } else {
            0int
        }
    }
}

/// Position `j` closes the bracket scanned from `open`: a `close` that brings the count back to
/// zero.
pub open spec fn closes_at(s: Seq<char>, open: int, oc: char, cc: char, j: int) -> bool {
    open <= j < s.len() && s[j] == cc && s[j] != oc && balance(s.subrange(open, j + 1), oc, cc) == 0
}

/// The first position from `open` that closes the bracket there.
#[verifier::opaque]
pub open spec fn match_close(s: Seq<char>, open: int, oc: char, cc: char) -> Option<int> {
    if exists|j: int| closes_at(s, open, oc, cc, j) {
        Some(choose|j: int| closes_at(s, open, oc, cc, j) && forall|k: int| open <= k < j ==> !closes_at(s, open, oc, cc, k))
    } else {
        None
    }
}

proof fn lemma_balance_bounded(s: Seq<char>, oc: char, cc: char)
    ensures
        -s.len() <= balance(s, oc, cc) <= s.len(),
    decreases s.len(),
{
    if s.len() > 0 {
        lemma_balance_bounded(s.drop_last(), oc, cc);
    }
}

/// The position that closes the bracket opened at `open` (see [`match_close`]).
pub fn matching_delimiter(v: &Vec<char>, open: usize, open_ch: char, close_ch: char) -> (r: Option<usize>)
    requires
        open <= v.len(),
    ensures
        match r {
            Some(j) => match_close(v@, open as int, open_ch, close_ch) == Some(j as int) && open <= j < v.len() && v@[j as int]
                == close_ch && v@[j as int] != open_ch,
            None => match_close(v@, open as int, open_ch, close_ch) is None,
        },
{
    reveal(match_close);
    let mut depth: i128 = 0;
    let mut j: usize = open;
    assert(v@.subrange(open as int, open as int) =~= Seq::<char>::empty());
    while j < v.len()
        invariant
            open <= j <= v.len(),
            depth == balance(v@.subrange(open as int, j as int), open_ch, close_ch),
            forall|k: int| open <= k < j ==> !closes_at(v@, open as int, open_ch, close_ch, k),
        decreases v.len() - j,
    {
        proof {
            lemma_balance_bounded(v@.subrange(open as int, j as int), open_ch, close_ch);
            assert(v@.subrange(open as int, j + 1).drop_last() =~= v@.subrange(open as int, j as int));
        }
        let c = v[j];
        if c == open_ch {
            depth = depth + 1;
        } else if c == close_ch {
            depth = depth - 1;
            if depth == 0 {
                proof {
                    reveal(match_close);
                    assert(closes_at(v@, open as int, open_ch, close_ch, j as int));
                    let w = choose|w: int|
                        closes_at(v@, open as int, open_ch, close_ch, w) && forall|k: int|
                            open <= k < w ==> !closes_at(v@, open as int, open_ch, close_ch, k);
                    if w < j {
                    } else if w > j {
                        assert(!closes_at(v@, open as int, open_ch, close_ch, j as int));
                    }
                }
                return Some(j);
            }
        }
        j += 1;
    }
    None
}

/// The first position of `target` outside every bracket.
#[verifier::opaque]
pub open spec fn top_level_pos(s: Seq<char>, target: char) -> Option<int> {
    if exists|i: int| 0 <= i < s.len() && s[i] == target && at_top(s, i) {
        Some(
            choose|i: int|
                0 <= i < s.len() && s[i] == target && at_top(s, i) && forall|k: int|
                    0 <= k < i ==> !(s[k] == target && at_top(s, k)),
        )
    } else {
        None
    }
}

/// The first position of `target` outside every bracket (see [`top_level_pos`]).
pub fn top_level_char(v: &Vec<char>, target: char) -> (r: Option<usize>)
    ensures
        match r {
            Some(i) => top_level_pos(v@, target) == Some(i as int) && i < v.len() && v@[i as int] == target,
            None => top_level_pos(v@, target) is None,
        },
{
    reveal(top_level_pos);
    let mut d = Depths { angle: 0, paren: 0, bracket: 0 };
    let mut i: usize = 0;
    assert(v@.take(0) =~= Seq::<char>::empty());
    while i < v.len()
        invariant
            i <= v.len(),
            depths_are(d, nest(v@.take(i as int))),
            forall|k: int| 0 <= k < i ==> !(v@[k] == target && at_top(v@, k)),
        decreases v.len() - i,
    {
        let c = v[i];
        if c == target && d.angle == 0 && d.paren == 0 && d.bracket == 0 {
            proof {
                reveal(top_level_pos);
                let w = choose|w: int|
                    0 <= w < v@.len() && v@[w] == target && at_top(v@, w) && forall|k: int|
                        0 <= k < w ==> !(v@[k] == target && at_top(v@, k));
                if w > i {
                    assert(!(v@[i as int] == target && at_top(v@, i as int)));
                }
            }
            return Some(i);
        }
        assert(v@.take(i + 1) =~= v@.take(i as int).push(c));
        step_depths(&mut d, c, Ghost(v@.take(i as int)));
        i += 1;
    }
    None
}

/// The first position from `idx` that is not whitespace, or the end.
pub open spec fn skip_ws_spec(s: Seq<char>, idx: int) -> int
    decreases s.len() - idx,
{
    if idx < s.len() && is_ws(s[idx]) {
        skip_ws_spec(s, idx + 1)
    } else {
        idx
    }
}

/// The first position from `idx` that is not whitespace (see [`skip_ws_spec`]).
pub fn skip_ws(v: &Vec<char>, idx: usize) -> (r: usize)
    requires
        idx <= v.len(),
    ensures
        r == skip_ws_spec(v@, idx as int),
        idx <= r <= v.len(),
{
    let mut j = idx;
    while j < v.len() && crate::text::is_whitespace(v[j])
        invariant
            idx <= j <= v.len(),
            skip_ws_spec(v@, idx as int) == skip_ws_spec(v@, j as int),
        decreases v.len() - j,
    {
        j += 1;
    }
    j
}

// ---------------------------------------------------------------------------
// Paths and trait references
// ---------------------------------------------------------------------------

/// The last of the pieces `s` splits into at `::`, scanning from the left.
pub open spec fn last_piece(s: Seq<char>) -> Seq<char>
    decreases s.len(),
{
    if s.len() == 0 {
        s
    } else if s.len() >= 2 && s[0] == ':' && s[1] == ':' {
        last_piece(s.skip(2))
    } else if seq_contains(s.drop_first(), "::"@) {
        last_piece(s.drop_first())
    } else {
        s
    }
}

/// `s` without any number of leading `r#`.
pub open spec fn strip_raw_prefix(s: Seq<char>) -> Seq<char>
    decreases s.len(),
{
    if s.len() >= 2 && s[0] == 'r' && s[1] == '#' {
        strip_raw_prefix(s.skip(2))
    } else {
        s
    }
}

/// The last segment of a path, trimmed, without raw-identifier prefixes.
pub open spec fn last_segment_spec(s: Seq<char>) -> Seq<char> {
    strip_raw_prefix(trim(last_piece(s)))
}

/// The last segment of the path in `v` (see [`last_segment_spec`]).
pub fn last_path_segment(v: &Vec<char>) -> (r: String)
    ensures
        r@ == last_segment_spec(v@),
{
    let n = v.len();
    let mut i: usize = 0;
    assert(v@.skip(0) =~= v@);
    proof {
        reveal_strlit("::");
    }
    let sep = str_chars("::");
    loop
        invariant
            i <= n == v.len(),
            sep@ == "::"@,
            last_piece(v@) == last_piece(v@.skip(i as int)),
        ensures
            i <= n,
            last_piece(v@) == v@.skip(i as int),
        decreases n - i,
    {
        if n - i >= 2 && v[i] == ':' && v[i + 1] == ':' {
            assert(v@.skip(i as int).skip(2) =~= v@.skip(i + 2));
            i = i + 2;
        } else if i < n {
            let rest = crate::text::slice_range(v, i + 1, n);
            assert(rest@ =~= v@.skip(i as int).drop_first());
            if crate::text::contains_chars(&rest, &sep) {
                assert(v@.skip(i + 1) =~= rest@);
                i = i + 1;
            } else {
                proof {
                    let t = v@.skip(i as int);
                    assert(!(t.len() >= 2 && t[0] == ':' && t[1] == ':'));
                    assert(last_piece(t) == t);
                }
                break;
            }
        } else {
            assert(v@.skip(i as int) =~= Seq::<char>::empty());
            break;
        }
    }
    let piece = crate::text::slice_range(v, i, n);
    assert(piece@ =~= v@.skip(i as int));
    let t = crate::text::trim_chars(&piece);
    let mut k: usize = 0;
    assert(t@.skip(0) =~= t@);
    while t.len() - k >= 2 && t[k] == 'r' && t[k + 1] == '#'
        invariant
            k <= t.len(),
            strip_raw_prefix(t@) == strip_raw_prefix(t@.skip(k as int)),
        decreases t.len() - k,
    {
        assert(t@.skip(k as int).skip(2) =~= t@.skip(k + 2));
        k = k + 2;
    }
    assert(t@.subrange(k as int, t.len() as int) =~= t@.skip(k as int));
    assert(strip_raw_prefix(t@.skip(k as int)) == t@.skip(k as int));
    crate::text::string_from_range(&t, k, t.len())
}

/// A trait reference read as its name (the last path segment) and its top-level arguments.
#[verifier::opaque]
pub open spec fn trait_path_spec(s: Seq<char>) -> (Seq<char>, Seq<Seq<char>>) {
    let t = trim(s);
    match top_level_pos(t, '<') {
        None => (last_segment_spec(t), Seq::empty()),
        Some(open) => match match_close(t, open, '<', '>') {
            None => (last_segment_spec(t), Seq::empty()),
            Some(close) => (last_segment_spec(trim(t.take(open))), split_spec(t.subrange(open + 1, close), ',')),
        },
    }
}

/// The name and arguments of the trait reference in `v` (see [`trait_path_spec`]).
pub fn parse_trait_path(v: &Vec<char>) -> (r: (String, Vec<String>))
    ensures
        (r.0@, crate::text::texts(r.1@)) == trait_path_spec(v@),
{
    reveal(trait_path_spec);
    let t = crate::text::trim_chars(v);
    proof {
        crate::text::lemma_trim_shorter(v@);
    }
    let open = match top_level_char(&t, '<') {
        Some(o) => o,
        None => {
            let r = (last_path_segment(&t), Vec::new());
            assert(crate::text::texts(r.1@) =~= Seq::<Seq<char>>::empty());
            return r;
        },
    };
    let close = match matching_delimiter(&t, open, '<', '>') {
        Some(c) => c,
        None => {
            let r = (last_path_segment(&t), Vec::new());
            assert(crate::text::texts(r.1@) =~= Seq::<Seq<char>>::empty());
            return r;
        },
    };
    let head = crate::text::slice_range(&t, 0, open);
    assert(head@ =~= t@.take(open as int));
    let head_t = crate::text::trim_chars(&head);
    let inner = crate::text::slice_range(&t, open + 1, close);
    (last_path_segment(&head_t), split_chars(&inner, ','))
}

pub open spec fn is_ident_continue(c: char) -> bool {
    c == '_' || crate::text::is_ascii_alnum_char(c)
}

pub open spec fn is_ident_start(c: char) -> bool {
    c == '_' || crate::text::is_ascii_alpha_char(c)
}

fn ident_continue(c: char) -> (b: bool)
    ensures
        b == is_ident_continue(c),
{
    c == '_' || ('a' <= c && c <= 'z') || ('A' <= c && c <= 'Z') || ('0' <= c && c <= '9')
}

/// The end of the run of identifier characters from `i`.
pub open spec fn ident_end(s: Seq<char>, i: int) -> int
    decreases s.len() - i,
{
    if 0 <= i < s.len() && is_ident_continue(s[i]) {
        ident_end(s, i + 1)
    } else {
        i
    }
}

/// The associated item named after `start`: `::`, then an identifier, spaces allowed around
/// the `::`; the name and where it ends.
#[verifier::opaque]
pub open spec fn assoc_suffix_spec(s: Seq<char>, start: int) -> Option<(Seq<char>, int)> {
    let i = skip_ws_spec(s, start);
    if !seq_starts_with(s.skip(i), "::"@) {
        None
    } else {
        let a = skip_ws_spec(s, i + 2);
        let e = ident_end(s, a);
        if e == a {
            None
        } else {
            Some((s.subrange(a, e), e))
        }
    }
}

proof fn lemma_skip_ws_bounds(s: Seq<char>, idx: int)
    requires
        0 <= idx <= s.len(),
    ensures
        idx <= skip_ws_spec(s, idx) <= s.len(),
    decreases s.len() - idx,
{
    if idx < s.len() && is_ws(s[idx]) {
        lemma_skip_ws_bounds(s, idx + 1);
    }
}

/// The associated item named after `start` (see [`assoc_suffix_spec`]).
pub fn parse_assoc_suffix(v: &Vec<char>, start: usize) -> (r: Option<(String, usize)>)
    requires
        start <= v.len(),
    ensures
        match r {
            Some((name, end)) => assoc_suffix_spec(v@, start as int) == Some((name@, end as int)) && start < end <= v.len(),
            None => assoc_suffix_spec(v@, start as int) is None,
        },
{
    reveal(assoc_suffix_spec);
    let i = skip_ws(v, start);
    proof {
        reveal_strlit("::");
    }
    if !(v.len() - i >= 2 && v[i] == ':' && v[i + 1] == ':') {
        proof {
            if seq_starts_with(v@.skip(i as int), "::"@) {
                let w = v@.skip(i as int);
                assert(w.subrange(0, 2) =~= "::"@);
                assert(w.subrange(0, 2)[0] == ':');
                assert(w.subrange(0, 2)[1] == ':');
                assert(w[0] == v@[i as int]);
                assert(w[1] == v@[i + 1]);
                assert(false);
            }
        }
        return None;
    }
    assert(v@.skip(i as int).subrange(0, 2) =~= "::"@);
    let a = skip_ws(v, i + 2);
    let mut e = a;
    while e < v.len() && ident_continue(v[e])
        invariant
            a <= e <= v.len(),
            ident_end(v@, a as int) == ident_end(v@, e as int),
        decreases v.len() - e,
    {
        e += 1;
    }
    if e == a {
        return None;
    }
    Some((crate::text::string_from_range(v, a, e), e))
}

// ---------------------------------------------------------------------------
// Splitting at `as` and at `:`
// ---------------------------------------------------------------------------

/// `s` splits at position `i` on ` as `: outside every bracket, with a space before and a
/// character after.
pub open spec fn as_split_at(s: Seq<char>, i: int) -> bool {
    0 < i && i + 4 <= s.len() && at_top(s, i) && s[i] == 'a' && s[i + 1] == 's' && s[i + 2] == ' ' && s[i - 1] == ' '
}

/// The text before and after the first top-level ` as `.
#[verifier::opaque]
pub open spec fn split_as_spec(s: Seq<char>) -> Option<(Seq<char>, Seq<char>)> {
    if exists|i: int| as_split_at(s, i) {
        let i = choose|i: int| as_split_at(s, i) && forall|k: int| 0 <= k < i ==> !as_split_at(s, k);
        Some((s.take(i - 1), s.skip(i + 3)))
    } else {
        None
    }
}

/// The text before and after the first top-level ` as ` (see [`split_as_spec`]).
pub fn split_top_level_as(v: &Vec<char>) -> (r: Option<(Vec<char>, Vec<char>)>)
    ensures
        match r {
            Some((a, b)) => split_as_spec(v@) == Some((a@, b@)),
            None => split_as_spec(v@) is None,
        },
{
    reveal(split_as_spec);
    let mut d = Depths { angle: 0, paren: 0, bracket: 0 };
    let mut i: usize = 0;
    assert(v@.take(0) =~= Seq::<char>::empty());
    while v.len() >= 4 && i <= v.len() - 4
        invariant
            i <= v.len(),
            depths_are(d, nest(v@.take(i as int))),
            forall|k: int| 0 <= k < i ==> !as_split_at(v@, k),
        decreases v.len() - i,
    {
        let c = v[i];
        if c == 'a' && d.angle == 0 && d.paren == 0 && d.bracket == 0 && v[i + 1] == 's' && v[i + 2] == ' ' && i > 0
            && v[i - 1] == ' ' {
            proof {
                reveal(split_as_spec);
                assert(as_split_at(v@, i as int));
                let w = choose|w: int| as_split_at(v@, w) && forall|k: int| 0 <= k < w ==> !as_split_at(v@, k);
                if w > i {
                    assert(!as_split_at(v@, i as int));
                }
            }
            let before = crate::text::slice_range(v, 0, i - 1);
            let after = crate::text::slice_range(v, i + 3, v.len());
            assert(before@ =~= v@.take(i - 1));
            assert(after@ =~= v@.skip(i + 3));
            return Some((before, after));
        }
        assert(v@.take(i + 1) =~= v@.take(i as int).push(c));
        step_depths(&mut d, c, Ghost(v@.take(i as int)));
        i += 1;
    }
    assert forall|k: int| !as_split_at(v@, k) by {
        if 0 <= k < i {
        }
    }
    None
}

/// `s` splits at position `i` on a lone `:` outside every bracket.
pub open spec fn colon_split_at(s: Seq<char>, i: int) -> bool {
    0 <= i < s.len() && s[i] == ':' && at_top(s, i) && !(i + 1 < s.len() && s[i + 1] == ':') && !(i > 0 && s[i - 1]
        == ':')
}

/// The text before and after the first top-level lone `:`.
#[verifier::opaque]
pub open spec fn split_colon_spec(s: Seq<char>) -> Option<(Seq<char>, Seq<char>)> {
    if exists|i: int| colon_split_at(s, i) {
        let i = choose|i: int| colon_split_at(s, i) && forall|k: int| 0 <= k < i ==> !colon_split_at(s, k);
        Some((s.take(i), s.skip(i + 1)))
    } else {
        None
    }
}

/// The text before and after the first top-level lone `:` (see [`split_colon_spec`]).
pub fn split_top_level_colon(v: &Vec<char>) -> (r: Option<(Vec<char>, Vec<char>)>)
    ensures
        match r {
            Some((a, b)) => split_colon_spec(v@) == Some((a@, b@)),
            None => split_colon_spec(v@) is None,
        },
{
    reveal(split_colon_spec);
    let mut d = Depths { angle: 0, paren: 0, bracket: 0 };
    let mut i: usize = 0;
    assert(v@.take(0) =~= Seq::<char>::empty());
    while i < v.len()
        invariant
            i <= v.len(),
            depths_are(d, nest(v@.take(i as int))),
            forall|k: int| 0 <= k < i ==> !colon_split_at(v@, k),
        decreases v.len() - i,
    {
        let c = v[i];
        if c == ':' && d.angle == 0 && d.paren == 0 && d.bracket == 0 && !(i + 1 < v.len() && v[i + 1] == ':') && !(i
            > 0 && v[i - 1] == ':') {
            proof {
                reveal(split_colon_spec);
                assert(colon_split_at(v@, i as int));
                let w = choose|w: int| colon_split_at(v@, w) && forall|k: int| 0 <= k < w ==> !colon_split_at(v@, k);
                if w > i {
                    assert(!colon_split_at(v@, i as int));
                }
            }
            let before = crate::text::slice_range(v, 0, i);
            let after = crate::text::slice_range(v, i + 1, v.len());
            assert(before@ =~= v@.take(i as int));
            assert(after@ =~= v@.skip(i + 1));
            return Some((before, after));
        }
        assert(v@.take(i + 1) =~= v@.take(i as int).push(c));
        step_depths(&mut d, c, Ghost(v@.take(i as int)));
        i += 1;
    }
    None
}

// ---------------------------------------------------------------------------
// Projections
// ---------------------------------------------------------------------------

/// A projection named in source text, `<self_ty as trait_name<trait_args>>::assoc_name`;
/// synthetic when it stands for a trait bound's `Output`.
#[derive(Debug, Clone, PartialEq, Eq)]
pub struct ProjectionRef {
    pub source: String,
    pub self_ty: String,
    pub trait_name: String,
    pub trait_args: Vec<String>,
    pub assoc_name: String,
    pub synthetic: bool,
}

/// A projection as values.
pub struct ProjectionView {
    pub source: Seq<char>,
    pub self_ty: Seq<char>,
    pub trait_name: Seq<char>,
    pub trait_args: Seq<Seq<char>>,
    pub assoc_name: Seq<char>,
    pub synthetic: bool,
}

impl View for ProjectionRef {
    type V = ProjectionView;

    open spec fn view(&self) -> ProjectionView {
        ProjectionView {
            source: self.source@,
            self_ty: self.self_ty@,
            trait_name: self.trait_name@,
            trait_args: crate::text::texts(self.trait_args@),
            assoc_name: self.assoc_name@,
            synthetic: self.synthetic,
        }
    }
}

pub open spec fn projection_views(v: Seq<ProjectionRef>) -> Seq<ProjectionView> {
    v.map_values(|p: ProjectionRef| p@)
}

/// The projection whose `<` stands at position `i`, if one does: the bracket closes, an
/// associated item follows, and the bracket holds a top-level ` as `.
pub open spec fn projection_at(s: Seq<char>, i: int) -> Option<ProjectionView> {
    if !(0 <= i < s.len() && s[i] == '<') {
        None
    } else {
        match match_close(s, i, '<', '>') {
            None => None,
            Some(close) => match assoc_suffix_spec(s, close + 1) {
                None => None,
                Some((assoc, end)) => match split_as_spec(s.subrange(i + 1, close)) {
                    None => None,
                    Some((self_ty, trait_part)) => {
                        let (name, args) = trait_path_spec(trim(trait_part));
                        Some(
                            ProjectionView {
                                source: trim(s.subrange(i, end)),
                                self_ty: trim(self_ty),
                                trait_name: name,
                                trait_args: args,
                                assoc_name: assoc,
                                synthetic: false,
                            },
                        )
                    },
                },
            },
        }
    }
}

/// The projections that start in the first `n` positions, in order of their start.
pub open spec fn projections_upto(s: Seq<char>, n: nat) -> Seq<ProjectionView>
    decreases n,
{
    if n == 0 {
        Seq::empty()
    } else {
        let r = projections_upto(s, (n - 1) as nat);
        match projection_at(s, n - 1) {
            Some(p) => r.push(p),
            None => r,
        }
    }
}

/// The projection starting at `i` (see [`projection_at`]).
fn projection_at_exec(v: &Vec<char>, i: usize) -> (r: Option<ProjectionRef>)
    requires
        i < v.len(),
    ensures
        match r {
            Some(p) => projection_at(v@, i as int) == Some(p@),
            None => projection_at(v@, i as int) is None,
        },
{
    if v[i] != '<' {
        return None;
    }
    let close = match matching_delimiter(v, i, '<', '>') {
        Some(c) => c,
        None => return None,
    };
    let (assoc, end) = match parse_assoc_suffix(v, close + 1) {
        Some(x) => x,
        None => return None,
    };
    let inner = crate::text::slice_range(v, i + 1, close);
    let (self_ty, trait_part) = match split_top_level_as(&inner) {
        Some(x) => x,
        None => return None,
    };
    let tp = crate::text::trim_chars(&trait_part);
    let (trait_name, trait_args) = parse_trait_path(&tp);
    let src = crate::text::slice_range(v, i, end);
    let p = ProjectionRef {
        source: crate::text::string_from_chars(&crate::text::trim_chars(&src)),
        self_ty: crate::text::string_from_chars(&crate::text::trim_chars(&self_ty)),
        trait_name,
        trait_args,
        assoc_name: assoc,
        synthetic: false,
    };
    assert(inner@ == v@.subrange(i + 1, close as int));
    assert(projection_at(v@, i as int) == Some(p@));
    Some(p)
}

proof fn lemma_ident_end_bounds(s: Seq<char>, i: int)
    requires
        0 <= i <= s.len(),
    ensures
        i <= ident_end(s, i) <= s.len(),
    decreases s.len() - i,
{
    if i < s.len() && is_ident_continue(s[i]) {
        lemma_ident_end_bounds(s, i + 1);
    }
}

/// The projections named in `source`, in order of their start (see [`projections_upto`]).
pub fn find_projections(source: &str) -> (r: Vec<ProjectionRef>)
    ensures
        projection_views(r@) == projections_upto(source@, source@.len()),
{
    let v = str_chars(source);
    let mut out: Vec<ProjectionRef> = Vec::new();
    let mut i: usize = 0;
    assert(projection_views(out@) =~= Seq::<ProjectionView>::empty());
    while i < v.len()
        invariant
            i <= v.len(),
            v@ == source@,
            projection_views(out@) == projections_upto(v@, i as nat),
        decreases v.len() - i,
    {
        match projection_at_exec(&v, i) {
            Some(p) => {
                let ghost before = out@;
                out.push(p);
                assert(projection_views(out@) =~= projection_views(before).push(p@));
            },
            None => {},
        }
        i += 1;
    }
    out
}

// ---------------------------------------------------------------------------
// Trait bounds read as projections
// ---------------------------------------------------------------------------

/// The synthetic `Output` projections of the bounds on `self_ty`: each bound that is not a
/// lifetime, a block or an equality, and names a trait other than `Sized`.
pub open spec fn bound_projections(self_ty: Seq<char>, bounds: Seq<Seq<char>>) -> Seq<ProjectionView>
    decreases bounds.len(),
{
    if bounds.len() == 0 {
        Seq::empty()
    } else {
        let r = bound_projections(self_ty, bounds.drop_last());
        let b = trim(bounds.last());
        let (name, args) = trait_path_spec(b);
        if b.len() == 0 || seq_starts_with(b, "'"@) || seq_starts_with(b, "{"@) || b.contains('=') || name.len() == 0
            || name == "Sized"@ {
            r
        } else {
            r.push(
                ProjectionView {
                    source: "<"@ + self_ty + " as "@ + b + ">::Output"@,
                    self_ty,
                    trait_name: name,
                    trait_args: args,
                    assoc_name: "Output"@,
                    synthetic: true,
                },
            )
        }
    }
}

/// The projections of one where clause `T: Bound + ..`, none for a higher-ranked or lifetime
/// subject.
pub open spec fn clause_projections(clause: Seq<char>) -> Seq<ProjectionView> {
    match split_colon_spec(clause) {
        None => Seq::empty(),
        Some((st0, bounds)) => {
            let st = trim(st0);
            if st.len() == 0 || seq_starts_with(st, "for<"@) || seq_starts_with(st, "'"@) {
                Seq::empty()
            } else {
                bound_projections(st, split_spec(trim(bounds), '+'))
            }
        },
    }
}

/// The projections of the clauses, in order.
pub open spec fn clauses_projections(clauses: Seq<Seq<char>>) -> Seq<ProjectionView>
    decreases clauses.len(),
{
    if clauses.len() == 0 {
        Seq::empty()
    } else {
        clauses_projections(clauses.drop_last()) + clause_projections(clauses.last())
    }
}

fn starts_with_text(v: &Vec<char>, p: &str) -> (b: bool)
    ensures
        b == seq_starts_with(v@, p@),
{
    crate::text::starts_with_chars(v, &str_chars(p))
}

/// The synthetic `Output` projections of the trait bounds in a where clause text, clause by
/// clause and bound by bound (see [`clauses_projections`]).
pub fn find_where_bound_projections(source: &str) -> (r: Vec<ProjectionRef>)
    ensures
        projection_views(r@) == clauses_projections(split_spec(source@, ',')),
{
    let clauses = split_top_level(source, ',');
    let ghost cs = crate::text::texts(clauses@);
    let mut out: Vec<ProjectionRef> = Vec::new();
    let mut i: usize = 0;
    assert(cs.take(0) =~= Seq::<Seq<char>>::empty());
    assert(projection_views(out@) =~= Seq::<ProjectionView>::empty());
    while i < clauses.len()
        invariant
            i <= clauses.len(),
            cs == crate::text::texts(clauses@),
            projection_views(out@) == clauses_projections(cs.take(i as int)),
        decreases clauses.len() - i,
    {
        let ghost before = projection_views(out@);
        let cv = str_chars(clauses[i].as_str());
        assert(cs[i as int] == cv@);
        assert(cs.take(i + 1).drop_last() =~= cs.take(i as int));
        match split_top_level_colon(&cv) {
            Some((st0, bounds)) => {
                let st = crate::text::trim_chars(&st0);
                if st.len() == 0 || starts_with_text(&st, "for<") || starts_with_text(&st, "'") {
                    assert(projection_views(out@) =~= before + clause_projections(cv@));
                } else {
                    let bt = crate::text::trim_chars(&bounds);
                    let bs = split_chars(&bt, '+');
                    let ghost bsv = crate::text::texts(bs@);
                    let st_s = crate::text::string_from_chars(&st);
                    let mut k: usize = 0;
                    assert(bsv.take(0) =~= Seq::<Seq<char>>::empty());
                    assert(projection_views(out@) =~= before + bound_projections(st@, bsv.take(0)));
                    while k < bs.len()
                        invariant
                            k <= bs.len(),
                            bsv == crate::text::texts(bs@),
                            st_s@ == st@,
                            projection_views(out@) == before + bound_projections(st@, bsv.take(k as int)),
                        decreases bs.len() - k,
                    {
                        let bv = crate::text::trim_chars(&str_chars(bs[k].as_str()));
                        assert(bsv[k as int] == bs@[k as int]@);
                        assert(bsv.take(k + 1).drop_last() =~= bsv.take(k as int));
                        let skip = bv.len() == 0 || starts_with_text(&bv, "'") || starts_with_text(&bv, "{")
                            || crate::text::has_char(&bv, '=');
                        if !skip {
                            let (name, args) = parse_trait_path(&bv);
                            if !(name.as_str().is_empty() || crate::text::str_eq(name.as_str(), "Sized")) {
                                let mut src = crate::text::copy_str("<");
                                crate::text::push_str(&mut src, st_s.as_str());
                                crate::text::push_str(&mut src, " as ");
                                let b_s = crate::text::string_from_chars(&bv);
                                crate::text::push_str(&mut src, b_s.as_str());
                                crate::text::push_str(&mut src, ">::Output");
                                let p = ProjectionRef {
                                    source: src,
                                    self_ty: st_s.clone(),
                                    trait_name: name,
                                    trait_args: args,
                                    assoc_name: crate::text::copy_str("Output"),
                                    synthetic: true,
                                };
                                let ghost mid = out@;
                                out.push(p);
                                assert(projection_views(out@) =~= projection_views(mid).push(p@));
                            }
                        }
                        k += 1;
                    }
                    assert(bsv.take(k as int) =~= bsv);
                }
            },
            None => {},
        }
        i += 1;
    }
    assert(cs.take(i as int) =~= cs);
    out
}

} // verus!
