//! Matching an impl's type pattern against the type text a projection names, binding the
//! impl's generic parameters on the way.
use vstd::prelude::*;

use crate::projection_text::{
    ident_end, is_ident_continue, is_ident_start, match_close, matching_delimiter, skip_ws, skip_ws_spec, split_chars,
    split_spec, top_level_char, top_level_pos,
};
use crate::strmap::StrMap;
use crate::text::{is_ws, seq_contains, seq_ends_with, seq_starts_with, str_chars, trim};

verus! {

broadcast use vstd::seq_lib::group_seq_properties;

// ---------------------------------------------------------------------------
// Small text tests
// ---------------------------------------------------------------------------

/// `s` without its whitespace.
pub open spec fn no_ws(s: Seq<char>) -> Seq<char>
    decreases s.len(),
{
    if s.len() == 0 {
        Seq::empty()
    } else {
        no_ws(s.drop_last()) + if is_ws(s.last()) {
            Seq::empty()
        } else {
            seq![s.last()]
        }
    }
}

/// `source` without its whitespace (see [`no_ws`]).
pub fn compact(source: &str) -> (r: String)
    ensures
        r@ == no_ws(source@),
{
    let v = str_chars(source);
    let mut out: Vec<char> = Vec::new();
    let mut i: usize = 0;
    assert(v@.take(0) =~= Seq::<char>::empty());
    while i < v.len()
        invariant
            i <= v.len(),
            v@ == source@,
            out@ == no_ws(v@.take(i as int)),
        decreases v.len() - i,
    {
        assert(v@.take(i + 1).drop_last() =~= v@.take(i as int));
        if !crate::text::is_whitespace(v[i]) {
            out.push(v[i]);
        }
        assert(out@ =~= no_ws(v@.take(i + 1)));
        i += 1;
    }
    assert(v@.take(i as int) =~= v@);
    crate::text::string_from_chars(&out)
}

/// `s` is one identifier.
pub open spec fn is_single_ident_spec(s: Seq<char>) -> bool {
    s.len() > 0 && is_ident_start(s[0]) && forall|i: int| 1 <= i < s.len() ==> is_ident_continue(#[trigger] s[i])
}

fn is_single_ident(v: &Vec<char>) -> (b: bool)
    ensures
        b == is_single_ident_spec(v@),
{
    if v.len() == 0 {
        return false;
    }
    let c = v[0];
    if !(c == '_' || ('a' <= c && c <= 'z') || ('A' <= c && c <= 'Z')) {
        return false;
    }
    let mut i: usize = 1;
    while i < v.len()
        invariant
            1 <= i <= v.len(),
            forall|k: int| 1 <= k < i ==> is_ident_continue(#[trigger] v@[k]),
        decreases v.len() - i,
    {
        let d = v[i];
        if !(d == '_' || ('a' <= d && d <= 'z') || ('A' <= d && d <= 'Z') || ('0' <= d && d <= '9')) {
            return false;
        }
        i += 1;
    }
    true
}

/// A type text whose value is not known yet: a projection or generic application, a bare
/// identifier, or a list macro.
pub open spec fn is_unknown_spec(value: Seq<char>) -> bool {
    let t = trim(value);
    seq_starts_with(t, "<"@) || seq_contains(t, " as "@) || seq_contains(t, ">::"@) || t.contains('<')
        || is_single_ident_spec(t) || seq_contains(t, "tarr!"@)
}

fn contains_text(v: &Vec<char>, p: &str) -> (b: bool)
    ensures
        b == seq_contains(v@, p@),
{
    crate::text::contains_chars(v, &str_chars(p))
}

fn starts_with_text(v: &Vec<char>, p: &str) -> (b: bool)
    ensures
        b == seq_starts_with(v@, p@),
{
    crate::text::starts_with_chars(v, &str_chars(p))
}

fn ends_with_text(v: &Vec<char>, p: &str) -> (b: bool)
    ensures
        b == seq_ends_with(v@, p@),
{
    crate::text::ends_with_chars(v, &str_chars(p))
}

/// Whether the value of a type text is not known yet (see [`is_unknown_spec`]).
pub fn is_unknown(value: &str) -> (b: bool)
    ensures
        b == is_unknown_spec(value@),
{
    let t = crate::text::trim_chars(&str_chars(value));
    starts_with_text(&t, "<") || contains_text(&t, " as ") || contains_text(&t, ">::") || crate::text::has_char(&t, '<')
        || is_single_ident(&t) || contains_text(&t, "tarr!")
}

/// A concrete type that a branch of an impl can select on: a boolean, a list end or node, or
/// a Peano numeral.
pub open spec fn is_branchable_concrete_spec(value: Seq<char>) -> bool {
    let t = trim(value);
    t == "True"@ || t == "False"@ || t == "TTerm"@ || seq_starts_with(t, "TArr<"@) || t == "Zero"@ || seq_starts_with(
        t,
        "Succ<"@,
    )
}

/// Whether a type text is a concrete branch selector (see [`is_branchable_concrete_spec`]).
pub fn is_branchable_concrete(value: &str) -> (b: bool)
    ensures
        b == is_branchable_concrete_spec(value@),
{
    let t = crate::text::trim_str(value);
    crate::text::str_eq(t.as_str(), "True") || crate::text::str_eq(t.as_str(), "False") || crate::text::str_eq(
        t.as_str(),
        "TTerm",
    ) || crate::text::str_starts_with(t.as_str(), "TArr<") || crate::text::str_eq(t.as_str(), "Zero")
        || crate::text::str_starts_with(t.as_str(), "Succ<")
}

// ---------------------------------------------------------------------------
// Constructors and tuples
// ---------------------------------------------------------------------------

/// A type application `Name<args>` with nothing after its closing bracket: its name and its
/// top-level arguments.
pub open spec fn constructor_spec(source: Seq<char>) -> Option<(Seq<char>, Seq<Seq<char>>)> {
    let t = trim(source);
    match top_level_pos(t, '<') {
        None => None,
        Some(open) => match match_close(t, open, '<', '>') {
            None => None,
            Some(close) => if skip_ws_spec(t, close + 1) != t.len() {
                None
            } else {
                Some((trim(t.take(open)), split_spec(t.subrange(open + 1, close), ',')))
            },
        },
    }
}

/// The name and arguments of a type application (see [`constructor_spec`]).
pub fn parse_constructor(source: &Vec<char>) -> (r: Option<(String, Vec<String>)>)
    ensures
        match r {
            Some((n, args)) => constructor_spec(source@) == Some((n@, crate::text::texts(args@))) && forall|k: int|
                0 <= k < args@.len() ==> (#[trigger] args@[k])@.len() + 2 <= trim(source@).len(),
            None => constructor_spec(source@) is None,
        },
{
    let t = crate::text::trim_chars(source);
    let open = match top_level_char(&t, '<') {
        Some(o) => o,
        None => return None,
    };
    let close = match matching_delimiter(&t, open, '<', '>') {
        Some(c) => c,
        None => return None,
    };
    if skip_ws(&t, close + 1) != t.len() {
        return None;
    }
    let head = crate::text::slice_range(&t, 0, open);
    assert(head@ =~= t@.take(open as int));
    let name = crate::text::string_from_chars(&crate::text::trim_chars(&head));
    let inner = crate::text::slice_range(&t, open + 1, close);
    let args = split_chars(&inner, ',');
    proof {
        crate::projection_text::lemma_split_pieces_short(inner@, ',');
        assert forall|k: int| 0 <= k < args@.len() implies (#[trigger] args@[k])@.len() + 2 <= t@.len() by {
            assert(crate::text::texts(args@)[k] == args@[k]@);
        }
    }
    Some((name, args))
}

/// A parenthesised list `(items)` closed at its end: its top-level items.
pub open spec fn tuple_spec(source: Seq<char>) -> Option<Seq<Seq<char>>> {
    let t = trim(source);
    if !(seq_starts_with(t, "("@) && seq_ends_with(t, ")"@)) {
        None
    } else {
        match match_close(t, 0, '(', ')') {
            None => None,
            Some(close) => if close + 1 != t.len() {
                None
            } else {
                Some(split_spec(t.subrange(1, close), ','))
            },
        }
    }
}

/// The items of a parenthesised list (see [`tuple_spec`]).
pub fn parse_tuple(source: &Vec<char>) -> (r: Option<Vec<String>>)
    ensures
        match r {
            Some(items) => tuple_spec(source@) == Some(crate::text::texts(items@)) && forall|k: int|
                0 <= k < items@.len() ==> (#[trigger] items@[k])@.len() + 2 <= trim(source@).len(),
            None => tuple_spec(source@) is None,
        },
{
    let t = crate::text::trim_chars(source);
    if !(starts_with_text(&t, "(") && ends_with_text(&t, ")")) {
        return None;
    }
    proof {
        reveal_strlit("(");
        assert(t@.subrange(0, 1) =~= "("@);
    }
    let close = match matching_delimiter(&t, 0, '(', ')') {
        Some(c) => c,
        None => return None,
    };
    if close + 1 != t.len() {
        return None;
    }
    let inner = crate::text::slice_range(&t, 1, close);
    let items = split_chars(&inner, ',');
    proof {
        crate::projection_text::lemma_split_pieces_short(inner@, ',');
        assert forall|k: int| 0 <= k < items@.len() implies (#[trigger] items@[k])@.len() + 2 <= t@.len() by {
            assert(crate::text::texts(items@)[k] == items@[k]@);
        }
    }
    Some(items)
}

// ---------------------------------------------------------------------------
// Substitution
// ---------------------------------------------------------------------------

/// A string map as a map of texts.
pub open spec fn env_map(m: StrMap) -> Map<Seq<char>, Seq<char>> {
    Map::new(|k: Seq<char>| m.spec_get(k) is Some, |k: Seq<char>| m.spec_get(k)->0)
}

pub proof fn lemma_ident_end_after(s: Seq<char>, i: int)
    requires
        0 <= i < s.len(),
        is_ident_continue(s[i]),
    ensures
        i < ident_end(s, i) <= s.len(),
    decreases s.len() - i,
{
    if i + 1 < s.len() && is_ident_continue(s[i + 1]) {
        lemma_ident_end_after(s, i + 1);
    } else {
        assert(ident_end(s, i + 1) == i + 1);
    }
}

/// `s` with each identifier that `env` binds replaced by its value.
#[verifier::opaque]
pub open spec fn subst(s: Seq<char>, env: Map<Seq<char>, Seq<char>>) -> Seq<char>
    decreases s.len(),
{
    if s.len() == 0 {
        Seq::empty()
    } else if is_ident_start(s[0]) {
        let e = ident_end(s, 0);
        if 0 < e <= s.len() {
            let id = s.take(e);
            (if env.contains_key(id) {
                env[id]
            } else {
                id
            }) + subst(s.skip(e), env)
        } else {
            Seq::empty()
        }
    } else {
        seq![s[0]] + subst(s.drop_first(), env)
    }
}

proof fn lemma_subst_empty(m: Map<Seq<char>, Seq<char>>)
    ensures
        subst(Seq::empty(), m) == Seq::<char>::empty(),
{
    reveal(subst);
}

proof fn lemma_subst_ident(s: Seq<char>, m: Map<Seq<char>, Seq<char>>, e: int)
    requires
        s.len() > 0,
        is_ident_start(s[0]),
        e == ident_end(s, 0),
    ensures
        0 < e <= s.len(),
        subst(s, m) == (if m.contains_key(s.take(e)) {
            m[s.take(e)]
        } else {
            s.take(e)
        }) + subst(s.skip(e), m),
{
    lemma_ident_end_after(s, 0);
    reveal(subst);
}

proof fn lemma_subst_other(s: Seq<char>, m: Map<Seq<char>, Seq<char>>)
    requires
        s.len() > 0,
        !is_ident_start(s[0]),
    ensures
        subst(s, m) == seq![s[0]] + subst(s.drop_first(), m),
{
    reveal(subst);
}

proof fn lemma_ident_end_shift(s: Seq<char>, k: int, i: int)
    requires
        0 <= k <= i <= s.len(),
    ensures
        ident_end(s, i) - k == ident_end(s.skip(k), i - k),
    decreases s.len() - i,
{
    if i < s.len() && is_ident_continue(s[i]) {
        lemma_ident_end_shift(s, k, i + 1);
    }
}

/// `source` with each identifier that `env` binds replaced by its value (see [`subst`]).
pub fn substitute(source: &str, env: &StrMap) -> (r: String)
    ensures
        r@ == subst(source@, env_map(*env)),
{
    let v = str_chars(source);
    let ghost m = env_map(*env);
    let mut out = String::new();
    let mut i: usize = 0;
    assert(v@.skip(0) =~= v@);
    while i < v.len()
        invariant
            i <= v.len(),
            v@ == source@,
            m == env_map(*env),
            out@ + subst(v@.skip(i as int), m) == subst(v@, m),
        decreases v.len() - i,
    {
        let c = v[i];
        let ghost rest = v@.skip(i as int);
        assert(rest[0] == c);
        if c == '_' || ('a' <= c && c <= 'z') || ('A' <= c && c <= 'Z') {
            let mut end = i + 1;
            while end < v.len() && (v[end] == '_' || ('a' <= v[end] && v[end] <= 'z') || ('A' <= v[end] && v[end] <= 'Z')
                || ('0' <= v[end] && v[end] <= '9'))
                invariant
                    i < end <= v.len(),
                    ident_end(v@, i as int) == ident_end(v@, end as int),
                decreases v.len() - end,
            {
                end += 1;
            }
            proof {
                lemma_ident_end_shift(v@, i as int, i as int);
                assert(ident_end(rest, 0) == end - i);
                lemma_subst_ident(rest, m, end - i);
                assert(rest.skip(end - i) =~= v@.skip(end as int));
                assert(rest.take(end - i) =~= v@.subrange(i as int, end as int));
            }
            let ident = crate::text::string_from_range(&v, i, end);
            match env.get(ident.as_str()) {
                Some(value) => {
                    assert(m.contains_key(ident@));
                    crate::text::push_str(&mut out, value.as_str());
                },
                None => {
                    assert(!m.contains_key(ident@));
                    crate::text::push_str(&mut out, ident.as_str());
                },
            }
            i = end;
        } else {
            crate::text::push_char(&mut out, c);
            proof {
                lemma_subst_other(rest, m);
                assert(rest.drop_first() =~= v@.skip(i + 1));
            }
            i += 1;
        }
    }
    assert(v@.skip(i as int) =~= Seq::<char>::empty());
    proof {
        lemma_subst_empty(m);
    }
    assert(out@ + Seq::<char>::empty() =~= out@);
    out
}

// ---------------------------------------------------------------------------
// Binding a pattern
// ---------------------------------------------------------------------------

/// How sure a match of an impl against a type is.
#[derive(Debug, Clone, Copy, PartialEq, Eq, Structural)]
pub enum MatchConfidence {
    Exact,
    Ambiguous,
}

impl MatchConfidence {
    pub fn label(self) -> (r: &'static str)
        ensures
            r@ == match self {
                MatchConfidence::Exact => "exact"@,
                MatchConfidence::Ambiguous => "ambiguous"@,
            },
    {
        match self {
            MatchConfidence::Exact => "exact",
            MatchConfidence::Ambiguous => "ambiguous",
        }
    }

    pub fn mark_ambiguous(&mut self)
        ensures
            *final(self) == MatchConfidence::Ambiguous,
    {
        *self = MatchConfidence::Ambiguous;
    }
}

/// Matches `pattern` against `actual`, binding generic parameters in `env`; the result, the
/// bindings after and the confidence after. The pattern is first trimmed and has the bindings
/// so far substituted. A generic parameter binds to the actual text, or must match what it is
/// bound to; equal texts (whitespace aside) match; a concrete branch selector matches an
/// unknown type, ambiguously; applications of the same name, and tuples, match argument by
/// argument, stopping at the first argument that fails. `fuel` bounds the nesting depth.
pub open spec fn bind_spec(
    pattern: Seq<char>,
    actual: Seq<char>,
    params: Seq<Seq<char>>,
    env: Map<Seq<char>, Seq<char>>,
    conf: MatchConfidence,
    fuel: nat,
) -> (bool, Map<Seq<char>, Seq<char>>, MatchConfidence)
    decreases fuel, 0nat,
{
    if fuel == 0 {
        (false, env, conf)
    } else {
        let p = subst(trim(pattern), env);
        let a = trim(actual);
        if params.contains(p) {
            if env.contains_key(p) {
                (no_ws(env[p]) == no_ws(a), env, conf)
            } else {
                (true, env.insert(p, a), conf)
            }
        } else if no_ws(p) == no_ws(a) {
            (true, env, conf)
        } else if is_unknown_spec(a) && is_branchable_concrete_spec(p) {
            (true, env, MatchConfidence::Ambiguous)
        } else {
            match (constructor_spec(p), constructor_spec(a)) {
                (Some((pn, pa)), Some((an, aa))) => if pn != an || pa.len() != aa.len() {
                    (false, env, conf)
                } else {
                    bind_all(pa, aa, params, env, conf, (fuel - 1) as nat)
                },
                _ => match (tuple_spec(p), tuple_spec(a)) {
                    (Some(pi), Some(ai)) => if pi.len() != ai.len() {
                        (false, env, conf)
                    } else {
                        bind_all(pi, ai, params, env, conf, (fuel - 1) as nat)
                    },
                    _ => (false, env, conf),
                },
            }
        }
    }
}

/// Matches the patterns against the actual texts pairwise, in order, until one fails.
pub open spec fn bind_all(
    ps: Seq<Seq<char>>,
    actuals: Seq<Seq<char>>,
    params: Seq<Seq<char>>,
    env: Map<Seq<char>, Seq<char>>,
    conf: MatchConfidence,
    fuel: nat,
) -> (bool, Map<Seq<char>, Seq<char>>, MatchConfidence)
    decreases fuel, ps.len(),
{
    if ps.len() == 0 || actuals.len() == 0 {
        (true, env, conf)
    } else {
        let (ok, e1, c1) = bind_spec(ps[0], actuals[0], params, env, conf, fuel);
        if !ok {
            (false, e1, c1)
        } else {
            bind_all(ps.drop_first(), actuals.drop_first(), params, e1, c1, fuel)
        }
    }
}

fn is_param(params: &Vec<String>, p: &str) -> (b: bool)
    ensures
        b == crate::text::texts(params@).contains(p@),
{
    let mut i: usize = 0;
    while i < params.len()
        invariant
            i <= params.len(),
            forall|k: int| 0 <= k < i ==> params@[k]@ != p@,
        decreases params.len() - i,
    {
        if crate::text::str_eq(params[i].as_str(), p) {
            assert(crate::text::texts(params@)[i as int] == p@);
            return true;
        }
        i += 1;
    }
    proof {
        if crate::text::texts(params@).contains(p@) {
            let k = choose|k: int| 0 <= k < params@.len() && crate::text::texts(params@)[k] == p@;
            assert(params@[k]@ == p@);
        }
    }
    false
}

proof fn lemma_bind_all_step(
    ps: Seq<Seq<char>>,
    actuals: Seq<Seq<char>>,
    params: Seq<Seq<char>>,
    env: Map<Seq<char>, Seq<char>>,
    conf: MatchConfidence,
    fuel: nat,
    i: int,
)
    requires
        0 <= i < ps.len(),
        ps.len() == actuals.len(),
    ensures
        bind_all(ps.skip(i), actuals.skip(i), params, env, conf, fuel) == ({
            let (ok, e1, c1) = bind_spec(ps[i], actuals[i], params, env, conf, fuel);
            if !ok {
                (false, e1, c1)
            } else {
                bind_all(ps.skip(i + 1), actuals.skip(i + 1), params, e1, c1, fuel)
            }
        }),
{
    assert(ps.skip(i).drop_first() =~= ps.skip(i + 1));
    assert(actuals.skip(i).drop_first() =~= actuals.skip(i + 1));
}

/// Matches the patterns against the actual texts pairwise (see [`bind_all`]).
fn bind_pairs(
    ps: &Vec<String>,
    actuals: &Vec<String>,
    params: &Vec<String>,
    env: &mut StrMap,
    conf: &mut MatchConfidence,
    Ghost(fuel): Ghost<nat>,
) -> (ok: bool)
    requires
        ps.len() == actuals.len(),
        forall|k: int| 0 <= k < actuals@.len() ==> (#[trigger] actuals@[k])@.len() < fuel,
    ensures
        (ok, env_map(*final(env)), *final(conf)) == bind_all(
            crate::text::texts(ps@),
            crate::text::texts(actuals@),
            crate::text::texts(params@),
            env_map(*old(env)),
            *old(conf),
            fuel,
        ),
    decreases fuel, 1nat,
{
    let ghost pv = crate::text::texts(ps@);
    let ghost av = crate::text::texts(actuals@);
    let ghost prm = crate::text::texts(params@);
    let ghost goal = bind_all(pv, av, prm, env_map(*env), *conf, fuel);
    let mut i: usize = 0;
    assert(pv.skip(0) =~= pv);
    assert(av.skip(0) =~= av);
    while i < ps.len()
        invariant
            i <= ps.len() == actuals.len(),
            pv == crate::text::texts(ps@),
            av == crate::text::texts(actuals@),
            prm == crate::text::texts(params@),
            forall|k: int| 0 <= k < actuals@.len() ==> (#[trigger] actuals@[k])@.len() < fuel,
            goal == bind_all(pv.skip(i as int), av.skip(i as int), prm, env_map(*env), *conf, fuel),
            goal == bind_all(pv, av, prm, env_map(*old(env)), *old(conf), fuel),
        decreases ps.len() - i,
    {
        let ghost e_before = env_map(*env);
        let ghost c_before = *conf;
        proof {
            lemma_bind_all_step(pv, av, prm, e_before, c_before, fuel, i as int);
            assert(pv[i as int] == ps@[i as int]@);
            assert(av[i as int] == actuals@[i as int]@);
        }
        let ok = bind_fuel(ps[i].as_str(), actuals[i].as_str(), params, env, conf, Ghost(fuel));
        assert((ok, env_map(*env), *conf) == bind_spec(pv[i as int], av[i as int], prm, e_before, c_before, fuel));
        if !ok {
            return false;
        }
        i += 1;
    }
    assert(pv.skip(i as int) =~= Seq::<Seq<char>>::empty());
    true
}

/// Matches `pattern` against `actual` with a nesting bound (see [`bind_spec`]).
fn bind_fuel(
    pattern: &str,
    actual: &str,
    params: &Vec<String>,
    env: &mut StrMap,
    conf: &mut MatchConfidence,
    Ghost(fuel): Ghost<nat>,
) -> (ok: bool)
    requires
        actual@.len() < fuel,
    ensures
        (ok, env_map(*final(env)), *final(conf)) == bind_spec(
            pattern@,
            actual@,
            crate::text::texts(params@),
            env_map(*old(env)),
            *old(conf),
            fuel,
        ),
    decreases fuel, 0nat,
{
    let ghost prm = crate::text::texts(params@);
    let ghost m0 = env_map(*env);
    let pt = crate::text::trim_str(pattern);
    let p = substitute(pt.as_str(), env);
    let a = crate::text::trim_str(actual);
    proof {
        crate::text::lemma_trim_shorter(actual@);
    }
    if is_param(params, p.as_str()) {
        match env.get(p.as_str()) {
            Some(bound) => {
                assert(m0.contains_key(p@));
                let cb = compact(bound.as_str());
                let ca = compact(a.as_str());
                return crate::text::str_eq(cb.as_str(), ca.as_str());
            },
            None => {
                assert(!m0.contains_key(p@));
                env.insert(p, a);
                assert(env_map(*env) =~= m0.insert(p@, a@));
                return true;
            },
        }
    }
    let cp = compact(p.as_str());
    let ca = compact(a.as_str());
    if crate::text::str_eq(cp.as_str(), ca.as_str()) {
        return true;
    }
    if is_unknown(a.as_str()) && is_branchable_concrete(p.as_str()) {
        conf.mark_ambiguous();
        return true;
    }
    let pv = str_chars(p.as_str());
    let av = str_chars(a.as_str());
    proof {
        crate::text::lemma_trim_shorter(a@);
    }
    match (parse_constructor(&pv), parse_constructor(&av)) {
        (Some((pn, pa)), Some((an, aa))) => {
            if !crate::text::str_eq(pn.as_str(), an.as_str()) || pa.len() != aa.len() {
                return false;
            }
            proof {
                assert forall|k: int| 0 <= k < aa@.len() implies (#[trigger] aa@[k])@.len() < (fuel - 1) as nat by {}
            }
            return bind_pairs(&pa, &aa, params, env, conf, Ghost((fuel - 1) as nat));
        },
        _ => {},
    }
    match (parse_tuple(&pv), parse_tuple(&av)) {
        (Some(pi), Some(ai)) => {
            if pi.len() != ai.len() {
                return false;
            }
            proof {
                assert forall|k: int| 0 <= k < ai@.len() implies (#[trigger] ai@[k])@.len() < (fuel - 1) as nat by {}
            }
            bind_pairs(&pi, &ai, params, env, conf, Ghost((fuel - 1) as nat))
        },
        _ => false,
    }
}

/// Matches an impl's type `pattern` against the type text `actual`, binding the generic
/// `params` in `env` and marking `confidence` ambiguous where a concrete branch meets an
/// unknown type (see [`bind_spec`], the depth bounded by the length of `actual`).
pub fn bind_pattern(
    pattern: &str,
    actual: &str,
    params: &Vec<String>,
    env: &mut StrMap,
    confidence: &mut MatchConfidence,
) -> (ok: bool)
    ensures
        (ok, env_map(*final(env)), *final(confidence)) == bind_spec(
            pattern@,
            actual@,
            crate::text::texts(params@),
            env_map(*old(env)),
            *old(confidence),
            actual@.len() + 1,
        ),
{
    bind_fuel(pattern, actual, params, env, confidence, Ghost(actual@.len() + 1))
}

// ---------------------------------------------------------------------------
// Headers, keys and alias references
// ---------------------------------------------------------------------------

/// The header of an impl: its source up to the first `{`, words joined by single spaces; or,
/// with no `{`, `impl Trait for Type` from its parts.
pub open spec fn impl_header_spec(source: Seq<char>, trait_source: Seq<char>, self_ty: Seq<char>) -> Seq<char> {
    match source.index_of_first('{') {
        Some(i) => crate::text::one_line_spec(trim(source.take(i))),
        None => "impl "@ + trait_source + " for "@ + self_ty,
    }
}

/// The header of an impl (see [`impl_header_spec`]).
pub fn impl_header(source: &str, trait_source: &str, self_ty: &str) -> (r: String)
    ensures
        r@ == impl_header_spec(source@, trait_source@, self_ty@),
{
    let v = str_chars(source);
    let mut i: usize = 0;
    while i < v.len() && v[i] != '{'
        invariant
            i <= v.len(),
            forall|k: int| 0 <= k < i ==> v@[k] != '{',
        decreases v.len() - i,
    {
        i += 1;
    }
    if i < v.len() {
        proof {
            assert(v@.contains('{'));
            v@.index_of_first_ensures('{');
            let j = v@.index_of_first('{')->0;
            if j < i {
                assert(v@[j] != '{');
            }
            if j > i {
                assert(v@[i as int] == '{');
            }
        }
        let head = crate::text::slice_range(&v, 0, i);
        assert(head@ =~= v@.take(i as int));
        let t = crate::text::trim_chars(&head);
        let ts = crate::text::string_from_chars(&t);
        return crate::text::one_line(ts.as_str());
    }
    assert(!v@.contains('{'));
    proof {
        v@.index_of_first_ensures('{');
    }
    let mut r = crate::text::copy_str("impl ");
    crate::text::push_str(&mut r, trait_source);
    crate::text::push_str(&mut r, " for ");
    crate::text::push_str(&mut r, self_ty);
    r
}

/// The bindings as text: `name=value` for each, value without whitespace, in name order,
/// separated by commas.
pub open spec fn env_key_spec(pairs: Seq<(Seq<char>, Seq<char>)>) -> Seq<char> {
    crate::text::join_seq(pairs.map_values(|p: (Seq<char>, Seq<char>)| p.0 + "="@ + no_ws(p.1)), ","@)
}

/// The bindings as text (see [`env_key_spec`]).
pub fn env_key(env: &StrMap) -> (r: String)
    ensures
        r@ == env_key_spec(env.pairs()),
{
    let ghost ps = env.pairs();
    let ghost all = ps.map_values(|p: (Seq<char>, Seq<char>)| p.0 + "="@ + no_ws(p.1));
    let mut parts: Vec<String> = Vec::new();
    let mut i: usize = 0;
    let n = env.len();
    while i < n
        invariant
            i <= n == ps.len(),
            ps == env.pairs(),
            all == ps.map_values(|p: (Seq<char>, Seq<char>)| p.0 + "="@ + no_ws(p.1)),
            crate::text::texts(parts@) == all.take(i as int),
        decreases n - i,
    {
        let mut part = env.key_at(i).clone();
        crate::text::push_str(&mut part, "=");
        let value = compact(env.value_at(i).as_str());
        crate::text::push_str(&mut part, value.as_str());
        let ghost before = parts@;
        parts.push(part);
        assert(crate::text::texts(parts@) =~= crate::text::texts(before).push(part@));
        assert(all.take(i + 1) =~= all.take(i as int).push(all[i as int]));
        i += 1;
    }
    assert(all.take(i as int) =~= all);
    crate::text::join(&parts, ",")
}

/// Drops the last key of `stack` when it is `key`.
pub fn pop_key(stack: &mut Vec<String>, key: &str)
    ensures
        final(stack)@ == if old(stack)@.len() > 0 && old(stack)@.last()@ == key@ {
            old(stack)@.drop_last()
        } else {
            old(stack)@
        },
{
    if stack.len() > 0 && crate::text::str_eq(stack[stack.len() - 1].as_str(), key) {
        stack.pop();
    }
}

/// A type alias, by name, with its generic parameters and texts.
#[derive(Debug, Clone, PartialEq, Eq)]
pub struct AliasDef {
    pub name: String,
    pub def_path: String,
    pub generics: Vec<String>,
    pub source: String,
    pub rhs: String,
}

/// A use of a generic alias in a text: its name, arguments and the text of the use.
#[derive(Debug, Clone, PartialEq, Eq)]
pub struct AliasRef {
    pub name: String,
    pub args: Vec<String>,
    pub source: String,
}

/// An alias reference as values.
pub struct AliasRefView {
    pub name: Seq<char>,
    pub args: Seq<Seq<char>>,
    pub source: Seq<char>,
}

impl View for AliasRef {
    type V = AliasRefView;

    open spec fn view(&self) -> AliasRefView {
        AliasRefView { name: self.name@, args: crate::text::texts(self.args@), source: self.source@ }
    }
}

pub open spec fn alias_ref_views(v: Seq<AliasRef>) -> Seq<AliasRefView> {
    v.map_values(|r: AliasRef| r@)
}

/// Whether `name` names an alias with generic parameters (the first alias of that name).
pub open spec fn generic_alias(aliases: Seq<AliasDef>, name: Seq<char>) -> bool
    decreases aliases.len(),
{
    if aliases.len() == 0 {
        false
    } else if aliases[0].name@ == name {
        aliases[0].generics@.len() > 0
    } else {
        generic_alias(aliases.drop_first(), name)
    }
}

/// The reference made by the identifier at `start..end`, if it names a generic alias
/// followed by a bracketed argument list.
pub open spec fn alias_ref_at(s: Seq<char>, start: int, end: int, aliases: Seq<AliasDef>) -> Option<AliasRefView> {
    let name = s.subrange(start, end);
    if !generic_alias(aliases, name) {
        None
    } else {
        let w = skip_ws_spec(s, end);
        if !(w < s.len() && s[w] == '<') {
            None
        } else {
            match match_close(s, w, '<', '>') {
                None => None,
                Some(close) => Some(
                    AliasRefView { name, args: split_spec(s.subrange(w + 1, close), ','), source: s.subrange(start, close + 1) },
                ),
            }
        }
    }
}

/// The alias references among the identifiers from position `i` on, in order.
pub open spec fn alias_refs_from(s: Seq<char>, i: int, aliases: Seq<AliasDef>) -> Seq<AliasRefView>
    decreases s.len() - i,
{
    if i < 0 || i >= s.len() {
        Seq::empty()
    } else if is_ident_start(s[i]) {
        let e = ident_end(s, i);
        if i < e <= s.len() {
            (match alias_ref_at(s, i, e, aliases) {
                Some(r) => seq![r],
                None => Seq::empty(),
            }) + alias_refs_from(s, e, aliases)
        } else {
            Seq::empty()
        }
    } else {
        alias_refs_from(s, i + 1, aliases)
    }
}

fn is_generic_alias(aliases: &Vec<AliasDef>, name: &str) -> (b: bool)
    ensures
        b == generic_alias(aliases@, name@),
{
    let mut i: usize = 0;
    assert(aliases@.skip(0) =~= aliases@);
    while i < aliases.len()
        invariant
            i <= aliases.len(),
            generic_alias(aliases@, name@) == generic_alias(aliases@.skip(i as int), name@),
        decreases aliases.len() - i,
    {
        assert(aliases@.skip(i as int)[0] == aliases@[i as int]);
        assert(aliases@.skip(i as int).drop_first() =~= aliases@.skip(i + 1));
        if crate::text::str_eq(aliases[i].name.as_str(), name) {
            return aliases[i].generics.len() > 0;
        }
        i += 1;
    }
    false
}

/// The uses of generic aliases in `source`, in order (see [`alias_refs_from`]).
pub fn find_alias_refs(source: &str, aliases: &Vec<AliasDef>) -> (r: Vec<AliasRef>)
    ensures
        alias_ref_views(r@) == alias_refs_from(source@, 0, aliases@),
{
    let v = str_chars(source);
    let mut out: Vec<AliasRef> = Vec::new();
    let mut i: usize = 0;
    assert(alias_ref_views(out@) =~= Seq::<AliasRefView>::empty());
    while i < v.len()
        invariant
            i <= v.len(),
            v@ == source@,
            alias_ref_views(out@) + alias_refs_from(v@, i as int, aliases@) == alias_refs_from(v@, 0, aliases@),
        decreases v.len() - i,
    {
        let c = v[i];
        if c == '_' || ('a' <= c && c <= 'z') || ('A' <= c && c <= 'Z') {
            let mut end = i + 1;
            while end < v.len() && (v[end] == '_' || ('a' <= v[end] && v[end] <= 'z') || ('A' <= v[end] && v[end] <= 'Z')
                || ('0' <= v[end] && v[end] <= '9'))
                invariant
                    i < end <= v.len(),
                    ident_end(v@, i as int) == ident_end(v@, end as int),
                decreases v.len() - end,
            {
                end += 1;
            }
            let ghost before = alias_ref_views(out@);
            let name = crate::text::string_from_range(&v, i, end);
            let mut found: Option<AliasRef> = None;
            if is_generic_alias(aliases, name.as_str()) {
                let w = skip_ws(&v, end);
                if w < v.len() && v[w] == '<' {
                    match matching_delimiter(&v, w, '<', '>') {
                        Some(close) => {
                            let inner = crate::text::slice_range(&v, w + 1, close);
                            let args = split_chars(&inner, ',');
                            let src = crate::text::string_from_range(&v, i, close + 1);
                            found = Some(AliasRef { name, args, source: src });
                        },
                        None => {},
                    }
                }
            }
            match found {
                Some(r) => {
                    assert(alias_ref_at(v@, i as int, end as int, aliases@) == Some(r@));
                    out.push(r);
                    assert(alias_ref_views(out@) =~= before.push(r@));
                },
                None => {
                    assert(alias_ref_at(v@, i as int, end as int, aliases@) is None);
                },
            }
            assert(alias_refs_from(v@, i as int, aliases@) == (match alias_ref_at(v@, i as int, end as int, aliases@) {
                Some(r) => seq![r],
                None => Seq::<AliasRefView>::empty(),
            }) + alias_refs_from(v@, end as int, aliases@));
            i = end;
        } else {
            i += 1;
        }
    }
    assert(alias_ref_views(out@) + Seq::<AliasRefView>::empty() =~= alias_ref_views(out@));
    out
}


/// Substituting with no bindings leaves a text as it is.
pub proof fn substitution_without_bindings_is_identity(s: Seq<char>)
    ensures
        subst(s, Map::empty()) == s,
    decreases s.len(),
{
    let m = Map::<Seq<char>, Seq<char>>::empty();
    if s.len() == 0 {
        lemma_subst_empty(m);
    } else if is_ident_start(s[0]) {
        let e = ident_end(s, 0);
        lemma_subst_ident(s, m, e);
        substitution_without_bindings_is_identity(s.skip(e));
        assert(s.take(e) + s.skip(e) =~= s);
    } else {
        lemma_subst_other(s, m);
        substitution_without_bindings_is_identity(s.drop_first());
        assert(seq![s[0]] + s.drop_first() =~= s);
    }
}

} // verus!
