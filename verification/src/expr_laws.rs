//! Reading back the text that an expression is written as.
use vstd::prelude::*;

use crate::expr::{
    angle_comma_at, angle_depth, angle_segments, first_angle_comma, first_index_of, format_args_spec,
    format_expr_spec, generic_inner, parse_args_spec, parse_expr_spec, TypeExprView,
};
use crate::text::{is_ws, trim, trim_end, trim_start};

verus! {

broadcast use vstd::seq_lib::group_seq_properties;

/// Every prefix of `s` closes no more angle brackets than it opened, and `s` closes them all.
pub open spec fn angle_balanced(s: Seq<char>) -> bool {
    &&& angle_depth(s) == 0
    &&& forall|k: int| 0 <= k <= s.len() ==> angle_depth(#[trigger] s.take(k)) >= 0
}

proof fn lemma_depth_concat(x: Seq<char>, y: Seq<char>)
    ensures
        angle_depth(x + y) == angle_depth(x) + angle_depth(y),
    decreases y.len(),
{
    if y.len() > 0 {
        lemma_depth_concat(x, y.drop_last());
        assert((x + y).drop_last() =~= x + y.drop_last());
    } else {
        assert(x + y =~= x);
    }
}

proof fn lemma_balanced_concat(x: Seq<char>, y: Seq<char>)
    requires
        angle_balanced(x),
        angle_balanced(y),
    ensures
        angle_balanced(x + y),
{
    lemma_depth_concat(x, y);
    assert forall|k: int| 0 <= k <= (x + y).len() implies angle_depth(#[trigger] (x + y).take(k)) >= 0 by {
        if k <= x.len() {
            assert((x + y).take(k) =~= x.take(k));
        } else {
            assert((x + y).take(k) =~= x + y.take(k - x.len()));
            lemma_depth_concat(x, y.take(k - x.len()));
        }
    }
}

/// A text without angle brackets has depth zero throughout.
proof fn lemma_flat_balanced(s: Seq<char>)
    requires
        forall|i: int| 0 <= i < s.len() ==> s[i] != '<' && s[i] != '>',
    ensures
        angle_balanced(s),
        forall|k: int| 0 <= k <= s.len() ==> angle_depth(#[trigger] s.take(k)) == 0,
    decreases s.len(),
{
    if s.len() > 0 {
        lemma_flat_balanced(s.drop_last());
        assert forall|k: int| 0 <= k <= s.len() implies angle_depth(#[trigger] s.take(k)) == 0 by {
            if k < s.len() {
                assert(s.take(k) =~= s.drop_last().take(k));
            } else {
                assert(s.take(k) =~= s);
            }
        }
    } else {
        assert forall|k: int| 0 <= k <= s.len() implies angle_depth(#[trigger] s.take(k)) == 0 by {
            assert(s.take(k) =~= s);
        }
    }
}

/// Wrapping a balanced text in angle brackets keeps it balanced, and every position inside is
/// at depth one or more.
proof fn lemma_wrap_balanced(x: Seq<char>)
    requires
        angle_balanced(x),
    ensures
        angle_balanced(seq!['<'] + x + seq!['>']),
        forall|k: int| 1 <= k <= x.len() + 1 ==> angle_depth(#[trigger] (seq!['<'] + x + seq!['>']).take(k)) >= 1,
{
    let w = seq!['<'] + x + seq!['>'];
    lemma_depth_concat(seq!['<'] + x, seq!['>']);
    lemma_depth_concat(seq!['<'], x);
    assert(angle_depth(seq!['<']) == 1) by {
        assert(seq!['<'].drop_last() =~= Seq::<char>::empty());
    }
    assert(angle_depth(seq!['>']) == -1) by {
        assert(seq!['>'].drop_last() =~= Seq::<char>::empty());
    }
    assert forall|k: int| 1 <= k <= x.len() + 1 implies angle_depth(#[trigger] w.take(k)) >= 1 by {
        assert(w.take(k) =~= seq!['<'] + x.take(k - 1));
        lemma_depth_concat(seq!['<'], x.take(k - 1));
    }
    assert forall|k: int| 0 <= k <= w.len() implies angle_depth(#[trigger] w.take(k)) >= 0 by {
        if k == 0 {
            assert(w.take(k) =~= Seq::<char>::empty());
        } else if k == w.len() {
            assert(w.take(k) =~= w);
        }
    }
}

/// A name that reads back as itself: not empty, without whitespace at either end, and without
/// `<`, `>` or `,`.
pub open spec fn plain_name(n: Seq<char>) -> bool {
    &&& n.len() > 0
    &&& !is_ws(n[0])
    &&& !is_ws(n.last())
    &&& forall|i: int| 0 <= i < n.len() ==> #[trigger] n[i] != '<' && n[i] != '>' && n[i] != ','
}

/// An expression whose names are all plain and whose generic forms all have arguments.
pub open spec fn well_written(t: TypeExprView) -> bool
    decreases t,
{
    match t {
        TypeExprView::Name(n) => plain_name(n),
        TypeExprView::Generic(n, args) => plain_name(n) && args.len() > 0 && all_well_written(args),
    }
}

/// Every expression of `args` is well written.
pub open spec fn all_well_written(args: Seq<TypeExprView>) -> bool
    decreases args,
{
    if args.len() == 0 {
        true
    } else {
        all_well_written(args.subrange(0, args.len() - 1)) && well_written(args[args.len() - 1])
    }
}

proof fn lemma_all_well_written(args: Seq<TypeExprView>, i: int)
    requires
        all_well_written(args),
        0 <= i < args.len(),
    ensures
        well_written(args[i]),
    decreases args.len(),
{
    if i < args.len() - 1 {
        let d = args.subrange(0, args.len() - 1);
        lemma_all_well_written(d, i);
        assert(d[i] == args[i]);
    }
}

/// What the text of a well-written expression is like: not empty, trimmed, balanced, and
/// without a comma outside angle brackets.
pub open spec fn written_facts(f: Seq<char>) -> bool {
    &&& f.len() > 0
    &&& !is_ws(f[0])
    &&& !is_ws(f.last())
    &&& angle_balanced(f)
    &&& forall|j: int| !#[trigger] angle_comma_at(f, j)
}

pub open spec fn formatted(args: Seq<TypeExprView>) -> Seq<Seq<char>> {
    args.map_values(|a: TypeExprView| format_expr_spec(a))
}

proof fn lemma_trim_same(x: Seq<char>)
    requires
        x.len() > 0,
        !is_ws(x[0]),
        !is_ws(x.last()),
    ensures
        trim(x) == x,
{
    assert(trim_start(x) == x);
    assert(trim_end(x) == x);
}

proof fn lemma_trim_space(z: Seq<char>)
    ensures
        trim(seq![' '] + z) == trim(z),
{
    let w = seq![' '] + z;
    assert(is_ws(w[0]));
    assert(w.drop_first() =~= z);
}

/// The arguments' text, cut from the left: the first argument, `, `, then the others.
proof fn lemma_args_left(args: Seq<TypeExprView>)
    requires
        args.len() >= 2,
    ensures
        format_args_spec(args) == format_expr_spec(args[0]) + ", "@ + format_args_spec(args.drop_first()),
    decreases args.len(),
{
    let d = args.drop_last();
    if args.len() == 2 {
        assert(args.drop_first() =~= seq![args[1]]);
        assert(format_args_spec(d) == format_expr_spec(args[0]));
    } else {
        lemma_args_left(d);
        assert(d.drop_first() =~= args.drop_first().drop_last());
        assert(args.drop_first().last() == args.last());
    }
}

/// The arguments' text is balanced, not empty, and as long as each argument's text at least.
proof fn lemma_args_facts(args: Seq<TypeExprView>)
    requires
        args.len() > 0,
        forall|i: int| 0 <= i < args.len() ==> written_facts(#[trigger] format_expr_spec(args[i])),
    ensures
        angle_balanced(format_args_spec(args)),
        format_args_spec(args).len() > 0,
        forall|i: int| 0 <= i < args.len() ==> (#[trigger] format_expr_spec(args[i])).len() <= format_args_spec(args).len(),
    decreases args.len(),
{
    reveal_strlit(", ");
    if args.len() == 1 {
        assert(written_facts(format_expr_spec(args[0])));
    } else {
        let d = args.drop_last();
        assert forall|i: int| 0 <= i < d.len() implies written_facts(#[trigger] format_expr_spec(d[i])) by {
            assert(d[i] == args[i]);
        }
        lemma_args_facts(d);
        let sep = ", "@;
        lemma_flat_balanced(sep);
        assert(written_facts(format_expr_spec(args.last())));
        lemma_balanced_concat(format_args_spec(d), sep);
        lemma_balanced_concat(format_args_spec(d) + sep, format_expr_spec(args.last()));
        assert forall|i: int| 0 <= i < args.len() implies (#[trigger] format_expr_spec(args[i])).len()
            <= format_args_spec(args).len() by {
            if i < d.len() {
                assert(d[i] == args[i]);
                assert(format_expr_spec(d[i]).len() <= format_args_spec(d).len());
            }
        }
    }
}

proof fn lemma_space_depth()
    ensures
        angle_depth(seq![' ']) == 0,
{
    let s = seq![' '];
    assert(s.drop_last() =~= Seq::<char>::empty());
    assert(s.len() == 1 && s.last() == ' ');
    assert(angle_depth(s) == angle_depth(s.drop_last()) + 0int);
}

proof fn lemma_space_comma(y: Seq<char>, j: int)
    ensures
        angle_comma_at(seq![' '] + y, j + 1) <==> angle_comma_at(y, j),
{
    let w = seq![' '] + y;
    if 0 <= j < y.len() {
        let t = y.take(j);
        assert(w.take(j + 1) =~= seq![' '] + t);
        lemma_depth_concat(seq![' '], t);
        lemma_space_depth();
        assert(w[j + 1] == y[j]);
        assert(angle_depth(w.take(j + 1)) == angle_depth(t));
    } else {
        assert(!angle_comma_at(y, j));
        assert(!angle_comma_at(w, j + 1));
    }
}

/// A comma outside angle brackets has a first one at or before it.
proof fn lemma_least_comma(y: Seq<char>, k: int)
    requires
        angle_comma_at(y, k),
    ensures
        exists|i: int| angle_comma_at(y, i) && forall|j: int| 0 <= j < i ==> !angle_comma_at(y, j),
    decreases k,
{
    if exists|j: int| 0 <= j < k && angle_comma_at(y, j) {
        let j = choose|j: int| 0 <= j < k && angle_comma_at(y, j);
        lemma_least_comma(y, j);
    } else {
        assert(angle_comma_at(y, k) && forall|j: int| 0 <= j < k ==> !angle_comma_at(y, j));
    }
}

proof fn lemma_first_angle_comma_cases(y: Seq<char>)
    ensures
        match first_angle_comma(y) {
            Some(i) => angle_comma_at(y, i) && forall|j: int| 0 <= j < i ==> !angle_comma_at(y, j),
            None => forall|j: int| !angle_comma_at(y, j),
        },
{
    reveal(first_angle_comma);
    if exists|i: int| angle_comma_at(y, i) {
        let k = choose|i: int| angle_comma_at(y, i);
        lemma_least_comma(y, k);
    } else {
        assert(first_angle_comma(y) is None);
    }
}

/// Putting a space before a text does not change its pieces.
#[verifier::rlimit(30)]
proof fn lemma_segments_space(y: Seq<char>)
    ensures
        angle_segments(seq![' '] + y) == angle_segments(y),
{
    let w = seq![' '] + y;
    lemma_first_angle_comma_cases(y);
    assert(!angle_comma_at(w, 0));
    match first_angle_comma(y) {
        Some(i) => {
            lemma_space_comma(y, i);
            assert forall|j: int| 0 <= j < i + 1 implies !angle_comma_at(w, j) by {
                if j > 0 {
                    lemma_space_comma(y, j - 1);
                }
            }
            crate::expr::lemma_first_angle_comma(w, i + 1);
            assert(w.take(i + 1) =~= seq![' '] + y.take(i));
            lemma_trim_space(y.take(i));
            assert(w.skip(i + 2) =~= y.skip(i + 1));
            assert(angle_segments(w) == seq![trim(w.take(i + 1))] + angle_segments(w.skip(i + 2)));
            assert(angle_segments(y) == seq![trim(y.take(i))] + angle_segments(y.skip(i + 1)));
        },
        None => {
            assert forall|j: int| 0 <= j < w.len() implies !angle_comma_at(w, j) by {
                if j > 0 {
                    lemma_space_comma(y, j - 1);
                }
            }
            crate::expr::lemma_no_angle_comma(w);
            lemma_trim_space(y);
        },
    }
}

/// The text of one written argument, followed by `, ` and more, is cut after that argument.
proof fn lemma_segments_split(x: Seq<char>, y: Seq<char>)
    requires
        written_facts(x),
    ensures
        angle_segments(x + ", "@ + y) == seq![x] + angle_segments(y),
{
    reveal_strlit(", ");
    let s = x + ", "@ + y;
    let n = x.len() as int;
    assert(s.take(n) =~= x);
    assert(angle_comma_at(s, n));
    assert forall|j: int| 0 <= j < n implies !angle_comma_at(s, j) by {
        assert(s.take(j) =~= x.take(j));
        assert(!angle_comma_at(x, j));
    }
    crate::expr::lemma_first_angle_comma(s, n);
    lemma_trim_same(x);
    assert(s.skip(n + 1) =~= seq![' '] + y);
    lemma_segments_space(y);
}

/// The pieces of the arguments' text are the arguments' texts.
proof fn lemma_segments(args: Seq<TypeExprView>)
    requires
        args.len() > 0,
        forall|i: int| 0 <= i < args.len() ==> written_facts(#[trigger] format_expr_spec(args[i])),
    ensures
        angle_segments(format_args_spec(args)) == formatted(args),
    decreases args.len(),
{
    let f0 = format_expr_spec(args[0]);
    assert(written_facts(f0));
    if args.len() == 1 {
        reveal(first_angle_comma);
        assert(first_angle_comma(f0) is None);
        lemma_trim_same(f0);
        assert(formatted(args) =~= seq![f0]);
    } else {
        let r = args.drop_first();
        assert forall|i: int| 0 <= i < r.len() implies written_facts(#[trigger] format_expr_spec(r[i])) by {
            assert(r[i] == args[i + 1]);
        }
        lemma_segments(r);
        lemma_args_left(args);
        lemma_segments_split(f0, format_args_spec(r));
        assert(formatted(args) =~= seq![f0] + formatted(r));
    }
}

/// Each argument's text, read back, gives the argument.
proof fn lemma_parse_args(args: Seq<TypeExprView>, bound: nat)
    requires
        forall|i: int| 0 <= i < args.len() ==> parse_expr_spec(#[trigger] format_expr_spec(args[i])) == args[i]
            && format_expr_spec(args[i]).len() < bound,
    ensures
        parse_args_spec(formatted(args), bound) == args,
    decreases args.len(),
{
    if args.len() > 0 {
        let d = args.drop_last();
        assert forall|i: int| 0 <= i < d.len() implies parse_expr_spec(#[trigger] format_expr_spec(d[i])) == d[i]
            && format_expr_spec(d[i]).len() < bound by {
            assert(d[i] == args[i]);
        }
        lemma_parse_args(d, bound);
        assert(formatted(args).drop_last() =~= formatted(d));
        assert(formatted(args).last() == format_expr_spec(args.last()));
        assert(parse_expr_spec(format_expr_spec(args[args.len() - 1])) == args[args.len() - 1]);
        assert(d.push(args.last()) =~= args);
    } else {
        assert(formatted(args) =~= Seq::<Seq<char>>::empty());
        assert(args =~= Seq::<TypeExprView>::empty());
    }
}

/// The text of a well-written expression has the shape its reading needs, and reads back as
/// the expression.
proof fn lemma_format_reads_back(t: TypeExprView)
    requires
        well_written(t),
    ensures
        written_facts(format_expr_spec(t)),
        parse_expr_spec(format_expr_spec(t)) == t,
    decreases t,
{
    match t {
        TypeExprView::Name(n) => {
            lemma_flat_balanced(n);
            reveal(first_index_of);
            assert(!n.contains('<'));
            assert forall|j: int| !#[trigger] angle_comma_at(n, j) by {
                if 0 <= j < n.len() {
                    assert(n[j] != ',');
                }
            }
        },
        TypeExprView::Generic(n, args) => {
            reveal_strlit("<");
            reveal_strlit(">");
            assert forall|i: int| 0 <= i < args.len() implies written_facts(#[trigger] format_expr_spec(args[i]))
                && parse_expr_spec(format_expr_spec(args[i])) == args[i] by {
                lemma_all_well_written(args, i);
                lemma_format_reads_back(args[i]);
            }
            let inner = format_args_spec(args);
            lemma_args_facts(args);
            let w = seq!['<'] + inner + seq!['>'];
            let f = format_expr_spec(t);
            assert(f =~= n + w);
            lemma_flat_balanced(n);
            lemma_wrap_balanced(inner);
            lemma_balanced_concat(n, w);
            lemma_depth_concat(n, Seq::<char>::empty());
            assert(n + Seq::<char>::empty() =~= n);
            assert forall|j: int| !#[trigger] angle_comma_at(f, j) by {
                if 0 <= j < f.len() {
                    if j < n.len() {
                        assert(f[j] == n[j]);
                    } else if j > n.len() && j < f.len() - 1 {
                        assert(f.take(j) =~= n + w.take(j - n.len()));
                        lemma_depth_concat(n, w.take(j - n.len()));
                        assert(n.take(n.len() as int) =~= n);
                        assert(angle_depth(w.take(j - n.len())) >= 1);
                    }
                }
            }
            assert(f[0] == n[0]);
            assert(f.last() == '>');
            assert(written_facts(f));
            assert forall|j: int| 0 <= j < n.len() implies f[j] != '<' by {
                assert(f[j] == n[j]);
            }
            crate::expr::lemma_first_index_of(f, '<', n.len() as int);
            assert(f.subrange(n.len() + 1int, f.len() - 1int) =~= inner);
            assert(generic_inner(f) == Some(inner));
            assert(f.take(n.len() as int) =~= n);
            lemma_trim_same(n);
            lemma_segments(args);
            assert forall|i: int| 0 <= i < args.len() implies parse_expr_spec(#[trigger] format_expr_spec(args[i]))
                == args[i] && format_expr_spec(args[i]).len() < f.len() by {
                assert(format_expr_spec(args[i]).len() <= inner.len());
            }
            lemma_parse_args(args, f.len() as nat);
        },
    }
}

/// Reading back the text a well-written expression is written as (what `TypeExpr::parse`
/// does with it) gives the expression: the text is not blank once trimmed, and reads as the
/// expression.
pub proof fn parse_reads_back_formatted(t: TypeExprView)
    requires
        well_written(t),
    ensures
        trim(format_expr_spec(t)).len() > 0,
        parse_expr_spec(trim(format_expr_spec(t))) == t,
{
    lemma_format_reads_back(t);
    lemma_trim_same(format_expr_spec(t));
}

} // verus!
