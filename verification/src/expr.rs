//! Type expressions written as generic Rust types, and their semantic reading.
use vstd::prelude::*;

use crate::graph::{all_bare, bare_node, bare_semantic_edge, edge_recs, node_recs, Graph, GraphEdge, GraphEdgeKind, GraphNode, GraphNodeKind};
use crate::ids::NodeId;
use crate::strmap::StrMap;
use crate::text::{copy_str, find_last, last_occurrence, lemma_trim_shorter, push_char, push_str, slice_range, str_chars, str_eq, string_from_chars, string_from_range, trim, trim_chars};

verus! {

/// A parsed type expression: a bare name, or a name applied to arguments.
#[derive(Debug, PartialEq, Eq)]
pub enum TypeExpr {
    /// A bare identifier with no type arguments (e.g. `True`, `Nil`, `U3`).
    Name(String),
    /// A generic type (e.g. `EIf<Cond, Then, Else>`).
    Generic { name: String, args: Vec<TypeExpr> },
}

/// The mathematical value of a [`TypeExpr`].
pub enum TypeExprView {
    Name(Seq<char>),
    Generic(Seq<char>, Seq<TypeExprView>),
}

impl TypeExpr {
    pub open spec fn view_expr(self) -> TypeExprView
        decreases self,
    {
        match self {
            TypeExpr::Name(n) => TypeExprView::Name(n@),
            TypeExpr::Generic { name, args } => TypeExprView::Generic(name@, expr_views(args@)),
        }
    }
}

/// The views of a sequence of expressions.
pub open spec fn expr_views(s: Seq<TypeExpr>) -> Seq<TypeExprView>
    decreases s,
{
    if s.len() == 0 {
        Seq::empty()
    } else {
        expr_views(s.drop_last()).push(s.last().view_expr())
    }
}

impl View for TypeExpr {
    type V = TypeExprView;

    open spec fn view(&self) -> TypeExprView {
        self.view_expr()
    }
}

/// Angle-bracket depth after `s`: each `<` opens one level, each `>` closes one.
pub open spec fn angle_depth(s: Seq<char>) -> int
    decreases s.len(),
{
    if s.len() == 0 {
        0
    } else {
        angle_depth(s.drop_last()) + if s.last() == '<' {
            1int
        } else if s.last() == '>' {
            -1int
        } else {
            0int
        }
    }
}

/// A comma at position `i` of `s` outside every angle bracket.
pub open spec fn angle_comma_at(s: Seq<char>, i: int) -> bool {
    0 <= i < s.len() && s[i] == ',' && angle_depth(s.take(i)) == 0
}

/// The first comma of `s` outside every angle bracket, if any.
#[verifier::opaque]
pub open spec fn first_angle_comma(s: Seq<char>) -> Option<int> {
    if exists|i: int| angle_comma_at(s, i) {
        Some(choose|i: int| angle_comma_at(s, i) && forall|j: int| 0 <= j < i ==> !angle_comma_at(s, j))
    } else {
        None
    }
}

/// The trimmed pieces of `s` between its commas that stand outside every angle bracket.
pub open spec fn angle_segments(s: Seq<char>) -> Seq<Seq<char>>
    decreases s.len(),
{
    match first_angle_comma(s) {
        Some(i) => if 0 <= i < s.len() {
            seq![trim(s.take(i))] + angle_segments(s.skip(i + 1))
        } else {
            Seq::empty()
        },
        None => seq![trim(s)],
    }
}

/// The position of the first `c` in `s`, if any.
#[verifier::opaque]
pub open spec fn first_index_of(s: Seq<char>, c: char) -> Option<int> {
    if s.contains(c) {
        Some(choose|i: int| 0 <= i < s.len() && s[i] == c && forall|j: int| 0 <= j < i ==> s[j] != c)
    } else {
        None
    }
}

/// The text between the first `<` of `s` and its final `>`, when `s` ends with `>` and no
/// `>` inside closes more than was opened before it.
pub open spec fn generic_inner(s: Seq<char>) -> Option<Seq<char>> {
    match first_index_of(s, '<') {
        Some(lt) => if s.len() > 0 && s.last() == '>' {
            let inner = s.subrange(lt + 1, s.len() - 1);
            if forall|k: int| 0 <= k <= inner.len() ==> angle_depth(#[trigger] inner.take(k)) >= 0 {
                Some(inner)
            } else {
                None
            }
        } else {
            None
        },
        None => None,
    }
}

/// The expression that a trimmed, non-empty text denotes.
pub open spec fn parse_expr_spec(s: Seq<char>) -> TypeExprView
    decreases s.len(), 1int, 0int,
{
    match generic_inner(s) {
        Some(inner) => {
            let lt = first_index_of(s, '<').unwrap();
            TypeExprView::Generic(trim(s.take(lt)), parse_args_spec(angle_segments(inner), s.len()))
        },
        None => TypeExprView::Name(s),
    }
}

/// The expressions that the argument texts `segs` denote. Each is shorter than `bound`, the
/// length of the text they were cut from; the test on it only bounds the recursion.
pub open spec fn parse_args_spec(segs: Seq<Seq<char>>, bound: nat) -> Seq<TypeExprView>
    decreases bound, 0int, segs.len(),
{
    if segs.len() == 0 {
        Seq::empty()
    } else {
        let t = segs.last();
        parse_args_spec(segs.drop_last(), bound).push(
            if t.len() < bound {
                parse_expr_spec(t)
            } else {
                TypeExprView::Name(t)
            },
        )
    }
}

/// The text views of a sequence of character vectors.
pub open spec fn char_views(v: Seq<Vec<char>>) -> Seq<Seq<char>> {
    v.map_values(|x: Vec<char>| x@)
}

pub(crate) proof fn lemma_first_index_of(s: Seq<char>, c: char, i: int)
    requires
        0 <= i < s.len(),
        s[i] == c,
        forall|j: int| 0 <= j < i ==> s[j] != c,
    ensures
        first_index_of(s, c) == Some(i),
{
    reveal(first_index_of);
    assert(s.contains(c));
    let k = choose|k: int| 0 <= k < s.len() && s[k] == c && forall|j: int| 0 <= j < k ==> s[j] != c;
    assert(k == i) by {
        if k < i {
        } else if k > i {
        }
    }
}

fn first_lt(s: &Vec<char>) -> (r: Option<usize>)
    ensures
        match r {
            Some(i) => first_index_of(s@, '<') == Some(i as int) && i < s.len() && s@[i as int] == '<',
            None => first_index_of(s@, '<') is None,
        },
{
    reveal(first_index_of);
    let mut i: usize = 0;
    while i < s.len()
        invariant
            i <= s.len(),
            forall|j: int| 0 <= j < i ==> s@[j] != '<',
        decreases s.len() - i,
    {
        if s[i] == '<' {
            proof {
                lemma_first_index_of(s@, '<', i as int);
            }
            return Some(i);
        }
        i += 1;
    }
    assert(!s@.contains('<'));
    None
}

fn strip_generic(s: &Vec<char>) -> (r: Option<usize>)
    ensures
        match r {
            Some(lt) => first_index_of(s@, '<') == Some(lt as int) && lt + 2 <= s.len() && generic_inner(s@)
                == Some(s@.subrange(lt + 1, s.len() - 1)),
            None => generic_inner(s@) is None,
        },
{
    let lt = match first_lt(s) {
        Some(lt) => lt,
        None => return None,
    };
    if !(s.len() > 0 && s[s.len() - 1] == '>') {
        return None;
    }
    assert(s@[lt as int] == '<');
    let end = s.len() - 1;
    let ghost inner = s@.subrange(lt + 1, end as int);
    let mut depth: i128 = 0;
    let mut i = lt + 1;
    assert(inner.take(0) =~= Seq::<char>::empty());
    while i < end
        invariant
            lt + 1 <= i <= end,
            end == s.len() - 1,
            first_index_of(s@, '<') == Some(lt as int),
            s@.len() > 0 && s@.last() == '>',
            inner == s@.subrange(lt + 1, end as int),
            depth == angle_depth(inner.take(i - lt - 1)),
            -(i as int) <= depth <= i as int,
            forall|k: int| 0 <= k <= i - lt - 1 ==> angle_depth(#[trigger] inner.take(k)) >= 0,
        decreases end - i,
    {
        let c = s[i];
        assert(inner.take(i - lt).drop_last() =~= inner.take(i - lt - 1));
        assert(inner.take(i - lt).last() == c);
        if c == '<' {
            depth = depth + 1;
        } else if c == '>' {
            depth = depth - 1;
            if depth < 0 {
                assert(angle_depth(inner.take(i - lt)) < 0);
                assert(!(forall|k: int| 0 <= k <= inner.len() ==> angle_depth(#[trigger] inner.take(k)) >= 0));
                return None;
            }
        }
        i += 1;
    }
    assert(inner.take(inner.len() as int) =~= inner);
    Some(lt)
}


pub(crate) proof fn lemma_first_angle_comma(s: Seq<char>, i: int)
    requires
        angle_comma_at(s, i),
        forall|j: int| 0 <= j < i ==> !angle_comma_at(s, j),
    ensures
        first_angle_comma(s) == Some(i),
{
    reveal(first_angle_comma);
    let k = choose|k: int| angle_comma_at(s, k) && forall|j: int| 0 <= j < k ==> !angle_comma_at(s, j);
    assert(k == i) by {
        if k < i {
        } else if k > i {
        }
    }
}

pub(crate) proof fn lemma_no_angle_comma(s: Seq<char>)
    requires
        forall|j: int| 0 <= j < s.len() ==> !angle_comma_at(s, j),
    ensures
        first_angle_comma(s) is None,
{
    reveal(first_angle_comma);
}

/// `s` cut at its commas outside angle brackets, each piece trimmed.
pub(crate) fn split_angle(s: &Vec<char>) -> (r: Vec<Vec<char>>)
    ensures
        char_views(r@) == angle_segments(s@),
        forall|k: int| 0 <= k < r.len() ==> (#[trigger] r@[k])@.len() <= s.len(),
{
    let mut out: Vec<Vec<char>> = Vec::new();
    let mut depth: i128 = 0;
    let mut start: usize = 0;
    let mut i: usize = 0;
    assert(s@.skip(0) =~= s@);
    assert(char_views(out@) =~= Seq::<Seq<char>>::empty());
    assert(char_views(out@) + angle_segments(s@) =~= angle_segments(s@));
    while i < s.len()
        invariant
            start <= i <= s.len(),
            depth == angle_depth(s@.subrange(start as int, i as int)),
            -(i as int) <= depth <= i as int,
            forall|j: int| 0 <= j < i - start ==> !angle_comma_at(s@.skip(start as int), j),
            char_views(out@) + angle_segments(s@.skip(start as int)) == angle_segments(s@),
            forall|k: int| 0 <= k < out.len() ==> (#[trigger] out@[k])@.len() <= s.len(),
        decreases s.len() - i,
    {
        let c = s[i];
        let ghost t = s@.skip(start as int);
        assert(t.take(i - start) =~= s@.subrange(start as int, i as int));
        assert(s@.subrange(start as int, i + 1).drop_last() =~= s@.subrange(start as int, i as int));
        if c == ',' && depth == 0 {
            proof {
                assert(angle_comma_at(t, i - start));
                lemma_first_angle_comma(t, i - start);
                assert(t.skip(i - start + 1) =~= s@.skip(i + 1));
            }
            let piece = slice_range(s, start, i);
            let seg = trim_chars(&piece);
            proof {
                lemma_trim_shorter(piece@);
            }
            let ghost before = out@;
            out.push(seg);
            proof {
                assert(char_views(out@) =~= char_views(before).push(seg@));
                assert(char_views(out@) + angle_segments(s@.skip(i + 1)) =~= char_views(before) + (seq![
                    trim(t.take(i - start)),
                ] + angle_segments(t.skip(i - start + 1))));
                assert(s@.subrange(i + 1, i + 1) =~= Seq::<char>::empty());
            }
            start = i + 1;
            depth = 0;
        } else {
            if c == '<' {
                depth = depth + 1;
            } else if c == '>' {
                depth = depth - 1;
            }
            assert(!angle_comma_at(t, i - start));
        }
        i += 1;
    }
    let ghost t = s@.skip(start as int);
    proof {
        lemma_no_angle_comma(t);
    }
    let piece = slice_range(s, start, s.len());
    assert(piece@ =~= t);
    let seg = trim_chars(&piece);
    proof {
        lemma_trim_shorter(piece@);
    }
    let ghost before = out@;
    out.push(seg);
    assert(char_views(out@) =~= char_views(before).push(seg@));
    assert(char_views(out@) =~= char_views(before) + seq![trim(t)]);
    out
}


/// The expression that the trimmed, non-empty text `s` denotes.
fn parse_expr(s: &Vec<char>) -> (e: TypeExpr)
    ensures
        e@ == parse_expr_spec(s@),
    decreases s.len(),
{
    match strip_generic(s) {
        Some(lt) => {
            let head = slice_range(s, 0, lt);
            let name = trim_chars(&head);
            let inner = slice_range(s, lt + 1, s.len() - 1);
            let segs = split_angle(&inner);
            let mut args: Vec<TypeExpr> = Vec::new();
            let mut k: usize = 0;
            assert(char_views(segs@).take(0) =~= Seq::<Seq<char>>::empty());
            while k < segs.len()
                invariant
                    k <= segs.len(),
                    inner.len() < s.len(),
                    forall|j: int| 0 <= j < segs.len() ==> (#[trigger] segs@[j])@.len() <= inner.len(),
                    expr_views(args@) == parse_args_spec(char_views(segs@).take(k as int), s.len() as nat),
                decreases segs.len() - k,
            {
                let a = parse_expr(&segs[k]);
                let ghost before = args@;
                args.push(a);
                proof {
                    let cv = char_views(segs@);
                    assert(cv.take(k + 1).drop_last() =~= cv.take(k as int));
                    assert(cv.take(k + 1).last() == segs@[k as int]@);
                    assert(args@.drop_last() =~= before);
                }
                k += 1;
            }
            assert(char_views(segs@).take(segs.len() as int) =~= char_views(segs@));
            TypeExpr::Generic { name: string_from_chars(&name), args }
        },
        None => TypeExpr::Name(string_from_chars(s)),
    }
}

impl TypeExpr {
    /// Parses `input` once trimmed; an input that is blank after trimming has no expression.
    pub fn parse(input: &str) -> (r: Option<TypeExpr>)
        ensures
            match r {
                Some(e) => trim(input@).len() > 0 && e@ == parse_expr_spec(trim(input@)),
                None => trim(input@).len() == 0,
            },
    {
        let v = str_chars(input);
        let t = trim_chars(&v);
        if t.len() == 0 {
            None
        } else {
            Some(parse_expr(&t))
        }
    }
}


/// The views of a sequence of expressions, element by element.
pub proof fn lemma_expr_views(s: Seq<TypeExpr>)
    ensures
        expr_views(s).len() == s.len(),
        forall|i: int| 0 <= i < s.len() ==> #[trigger] expr_views(s)[i] == s[i].view_expr(),
    decreases s.len(),
{
    if s.len() > 0 {
        lemma_expr_views(s.drop_last());
    }
}

/// Semantic form of a type expression.
#[derive(Debug, PartialEq, Eq)]
pub enum SemanticExpr {
    If { cond: Box<SemanticExpr>, then: Box<SemanticExpr>, else_: Box<SemanticExpr> },
    While { pred: Box<SemanticExpr>, step: Box<SemanticExpr>, init: Box<SemanticExpr> },
    App { func: Box<SemanticExpr>, arg: Box<SemanticExpr> },
    Get { arr: Box<SemanticExpr>, key: Box<SemanticExpr> },
    MapEach { func: Box<SemanticExpr>, list: Box<SemanticExpr> },
    Filter { pred: Box<SemanticExpr>, list: Box<SemanticExpr> },
    Fold { func: Box<SemanticExpr>, init: Box<SemanticExpr>, list: Box<SemanticExpr> },
    Lit(Box<SemanticExpr>),
    Array { head: Box<SemanticExpr>, tail: Box<SemanticExpr> },
    Nil,
    Primitive(String),
}

/// The mathematical value of a [`SemanticExpr`].
pub enum SemanticView {
    If(Box<SemanticView>, Box<SemanticView>, Box<SemanticView>),
    While(Box<SemanticView>, Box<SemanticView>, Box<SemanticView>),
    App(Box<SemanticView>, Box<SemanticView>),
    Get(Box<SemanticView>, Box<SemanticView>),
    MapEach(Box<SemanticView>, Box<SemanticView>),
    Filter(Box<SemanticView>, Box<SemanticView>),
    Fold(Box<SemanticView>, Box<SemanticView>, Box<SemanticView>),
    Lit(Box<SemanticView>),
    Array(Box<SemanticView>, Box<SemanticView>),
    Nil,
    Primitive(Seq<char>),
}

impl SemanticExpr {
    pub open spec fn view_sem(self) -> SemanticView
        decreases self,
    {
        match self {
            SemanticExpr::If { cond, then, else_ } => SemanticView::If(
                Box::new(cond.view_sem()),
                Box::new(then.view_sem()),
                Box::new(else_.view_sem()),
            ),
            SemanticExpr::While { pred, step, init } => SemanticView::While(
                Box::new(pred.view_sem()),
                Box::new(step.view_sem()),
                Box::new(init.view_sem()),
            ),
            SemanticExpr::App { func, arg } => SemanticView::App(Box::new(func.view_sem()), Box::new(arg.view_sem())),
            SemanticExpr::Get { arr, key } => SemanticView::Get(Box::new(arr.view_sem()), Box::new(key.view_sem())),
            SemanticExpr::MapEach { func, list } => SemanticView::MapEach(Box::new(func.view_sem()), Box::new(list.view_sem())),
            SemanticExpr::Filter { pred, list } => SemanticView::Filter(
                Box::new(pred.view_sem()),
                Box::new(list.view_sem()),
            ),
            SemanticExpr::Fold { func, init, list } => SemanticView::Fold(
                Box::new(func.view_sem()),
                Box::new(init.view_sem()),
                Box::new(list.view_sem()),
            ),
            SemanticExpr::Lit(inner) => SemanticView::Lit(Box::new(inner.view_sem())),
            SemanticExpr::Array { head, tail } => SemanticView::Array(Box::new(head.view_sem()), Box::new(tail.view_sem())),
            SemanticExpr::Nil => SemanticView::Nil,
            SemanticExpr::Primitive(label) => SemanticView::Primitive(label@),
        }
    }
}

impl View for SemanticExpr {
    type V = SemanticView;

    open spec fn view(&self) -> SemanticView {
        self.view_sem()
    }
}

/// The last `::`-separated segment of a path.
pub open spec fn type_suffix(name: Seq<char>) -> Seq<char> {
    match last_occurrence(name, "::"@) {
        Some(i) => name.skip(i + "::"@.len()),
        None => name,
    }
}

/// An expression written back as text: `Name`, or `Name<A, B>` with its arguments written the same way.
pub open spec fn format_expr_spec(t: TypeExprView) -> Seq<char>
    decreases t,
{
    match t {
        TypeExprView::Name(n) => n,
        TypeExprView::Generic(name, args) => if args.len() == 0 {
            name
        } else {
            name + "<"@ + format_args_spec(args) + ">"@
        },
    }
}

/// Arguments written back as text, separated by `, `.
pub open spec fn format_args_spec(args: Seq<TypeExprView>) -> Seq<char>
    decreases args,
{
    if args.len() == 0 {
        Seq::empty()
    } else if args.len() == 1 {
        format_expr_spec(args[0])
    } else {
        format_args_spec(args.drop_last()) + ", "@ + format_expr_spec(args.last())
    }
}

/// The semantic reading of an expression: the constructors `EIf`, `EWhile`, `EApp`, `EGet`,
/// `EMap`, `EFilter`, `EFold`, `ELit`, `Array`/`TArr`, `Nil`/`TTerm` (matched on the last path
/// segment, with their arity) become semantic nodes; anything else is a primitive holding its text.
pub open spec fn lift_spec(t: TypeExprView) -> SemanticView
    decreases t,
{
    match t {
        TypeExprView::Name(n) => {
            let suffix = type_suffix(n);
            if suffix == "Nil"@ || suffix == "TTerm"@ {
                SemanticView::Nil
            } else {
                SemanticView::Primitive(n)
            }
        },
        TypeExprView::Generic(name, args) => {
            let suffix = type_suffix(name);
            if suffix == "EIf"@ && args.len() == 3 {
                SemanticView::If(
                    Box::new(lift_spec(args[0])),
                    Box::new(lift_spec(args[1])),
                    Box::new(lift_spec(args[2])),
                )
            } else if suffix == "EWhile"@ && args.len() == 3 {
                SemanticView::While(
                    Box::new(lift_spec(args[0])),
                    Box::new(lift_spec(args[1])),
                    Box::new(lift_spec(args[2])),
                )
            } else if suffix == "EApp"@ && args.len() == 2 {
                SemanticView::App(Box::new(lift_spec(args[0])), Box::new(lift_spec(args[1])))
            } else if suffix == "EGet"@ && args.len() == 2 {
                SemanticView::Get(Box::new(lift_spec(args[0])), Box::new(lift_spec(args[1])))
            } else if suffix == "EMap"@ && args.len() == 2 {
                SemanticView::MapEach(Box::new(lift_spec(args[0])), Box::new(lift_spec(args[1])))
            } else if suffix == "EFilter"@ && args.len() == 2 {
                SemanticView::Filter(Box::new(lift_spec(args[0])), Box::new(lift_spec(args[1])))
            } else if suffix == "EFold"@ && args.len() == 3 {
                SemanticView::Fold(
                    Box::new(lift_spec(args[0])),
                    Box::new(lift_spec(args[1])),
                    Box::new(lift_spec(args[2])),
                )
            } else if suffix == "ELit"@ && args.len() == 1 {
                SemanticView::Lit(Box::new(lift_spec(args[0])))
            } else if (suffix == "Array"@ || suffix == "TArr"@) && args.len() == 2 {
                SemanticView::Array(Box::new(lift_spec(args[0])), Box::new(lift_spec(args[1])))
            } else {
                SemanticView::Primitive(format_expr_spec(t))
            }
        },
    }
}

pub(crate) fn type_suffix_of(name: &str) -> (r: String)
    ensures
        r@ == type_suffix(name@),
{
    let v = str_chars(name);
    let sep = str_chars("::");
    match find_last(&v, &sep) {
        Some(i) => {
            let n = sep.len();
            assert(i + n <= v.len());
            let r = string_from_range(&v, i + n, v.len());
            assert(r@ =~= v@.skip(i + "::"@.len()));
            r
        },
        None => copy_str(name),
    }
}

/// The expression written back as text.
pub fn format_type_expr(e: &TypeExpr) -> (r: String)
    ensures
        r@ == format_expr_spec(e@),
    decreases e,
{
    match e {
        TypeExpr::Name(name) => {
            let r = copy_str(name);
            assert(e@ == TypeExprView::Name(name@));
            r
        },
        TypeExpr::Generic { name, args } => {
            proof {
                lemma_expr_views(args@);
            }
            assert(e@ == TypeExprView::Generic(name@, expr_views(args@)));
            let ghost views = expr_views(args@);
            let mut out = copy_str(name);
            if args.len() == 0 {
                return out;
            }
            push_str(&mut out, "<");
            let mut k: usize = 0;
            assert(views.take(0) =~= Seq::<TypeExprView>::empty());
            assert(out@ =~= name@ + "<"@ + format_args_spec(views.take(0)));
            while k < args.len()
                invariant
                    k <= args.len(),
                    *e is Generic,
                    (*e)->args == *args,
                    views == expr_views(args@),
                    views.len() == args.len(),
                    forall|i: int| 0 <= i < args.len() ==> #[trigger] views[i] == args@[i].view_expr(),
                    out@ == name@ + "<"@ + format_args_spec(views.take(k as int)),
                decreases args.len() - k,
            {
                if k > 0 {
                    push_str(&mut out, ", ");
                }
                proof {
                    assert(decreases_to!(*e => (*e)->args));
                }
                let piece = format_type_expr(&args[k]);
                push_str(&mut out, piece.as_str());
                proof {
                    let t = views.take(k + 1);
                    assert(t.drop_last() =~= views.take(k as int));
                    assert(t.last() == args@[k as int].view_expr());
                    if k == 0 {
                        assert(t[0] == t.last());
                    }
                }
                k += 1;
            }
            assert(views.take(args.len() as int) =~= views);
            push_str(&mut out, ">");
            out
        },
    }
}


impl TypeExpr {
    /// The semantic reading of this expression.
    pub fn lift(&self) -> (r: SemanticExpr)
        ensures
            r@ == lift_spec(self@),
        decreases self,
    {
        match self {
            TypeExpr::Name(name) => {
                let suffix = type_suffix_of(name.as_str());
                assert(self@ == TypeExprView::Name(name@));
                if str_eq(suffix.as_str(), "Nil") || str_eq(suffix.as_str(), "TTerm") {
                    SemanticExpr::Nil
                } else {
                    SemanticExpr::Primitive(copy_str(name.as_str()))
                }
            },
            TypeExpr::Generic { name, args } => {
                proof {
                    lemma_expr_views(args@);
                    assert(decreases_to!(*self => self->args));
                }
                assert(self@ == TypeExprView::Generic(name@, expr_views(args@)));
                let suffix = type_suffix_of(name.as_str());
                let s = suffix.as_str();
                let n = args.len();
                if str_eq(s, "EIf") && n == 3 {
                    SemanticExpr::If { cond: Box::new(args[0].lift()), then: Box::new(args[1].lift()), else_: Box::new(args[2].lift()) }
                } else if str_eq(s, "EWhile") && n == 3 {
                    SemanticExpr::While { pred: Box::new(args[0].lift()), step: Box::new(args[1].lift()), init: Box::new(args[2].lift()) }
                } else if str_eq(s, "EApp") && n == 2 {
                    SemanticExpr::App { func: Box::new(args[0].lift()), arg: Box::new(args[1].lift()) }
                } else if str_eq(s, "EGet") && n == 2 {
                    SemanticExpr::Get { arr: Box::new(args[0].lift()), key: Box::new(args[1].lift()) }
                } else if str_eq(s, "EMap") && n == 2 {
                    SemanticExpr::MapEach { func: Box::new(args[0].lift()), list: Box::new(args[1].lift()) }
                } else if str_eq(s, "EFilter") && n == 2 {
                    SemanticExpr::Filter { pred: Box::new(args[0].lift()), list: Box::new(args[1].lift()) }
                } else if str_eq(s, "EFold") && n == 3 {
                    SemanticExpr::Fold { func: Box::new(args[0].lift()), init: Box::new(args[1].lift()), list: Box::new(args[2].lift()) }
                } else if str_eq(s, "ELit") && n == 1 {
                    SemanticExpr::Lit(Box::new(args[0].lift()))
                } else if (str_eq(s, "Array") || str_eq(s, "TArr")) && n == 2 {
                    SemanticExpr::Array { head: Box::new(args[0].lift()), tail: Box::new(args[1].lift()) }
                } else {
                    SemanticExpr::Primitive(format_type_expr(self))
                }
            },
        }
    }
}


/// The number of graph nodes drawn for an expression: one per subexpression.
pub open spec fn sem_size(e: SemanticView) -> nat
    decreases e,
{
    match e {
            SemanticView::If(x, y, z) => 1 + sem_size(*x) + sem_size(*y) + sem_size(*z),
            SemanticView::While(x, y, z) => 1 + sem_size(*x) + sem_size(*y) + sem_size(*z),
            SemanticView::App(x, y) => 1 + sem_size(*x) + sem_size(*y),
            SemanticView::Get(x, y) => 1 + sem_size(*x) + sem_size(*y),
            SemanticView::MapEach(x, y) => 1 + sem_size(*x) + sem_size(*y),
            SemanticView::Filter(x, y) => 1 + sem_size(*x) + sem_size(*y),
            SemanticView::Fold(x, y, z) => 1 + sem_size(*x) + sem_size(*y) + sem_size(*z),
            SemanticView::Lit(x) => 1 + sem_size(*x),
            SemanticView::Array(x, y) => 1 + sem_size(*x) + sem_size(*y),
            SemanticView::Nil => 1,
            SemanticView::Primitive(_) => 1,
    }
}

/// The nodes drawn for `e` when the last identifier handed out was `c`: `e` takes `c + 1`, then
/// each child's subtree follows in order (preorder numbering).
pub open spec fn sem_nodes(e: SemanticView, c: int) -> Seq<(int, GraphNodeKind, Seq<char>)>
    decreases e,
{
    match e {
            SemanticView::If(x, y, z) => seq![(c + 1, GraphNodeKind::Expression, "EIf"@)] + sem_nodes(*x, c + 1) + sem_nodes(*y, c + 1 + sem_size(*x)) + sem_nodes(*z, c + 1 + sem_size(*x) + sem_size(*y)),
            SemanticView::While(x, y, z) => seq![(c + 1, GraphNodeKind::Expression, "EWhile"@)] + sem_nodes(*x, c + 1) + sem_nodes(*y, c + 1 + sem_size(*x)) + sem_nodes(*z, c + 1 + sem_size(*x) + sem_size(*y)),
            SemanticView::App(x, y) => seq![(c + 1, GraphNodeKind::Expression, "EApp"@)] + sem_nodes(*x, c + 1) + sem_nodes(*y, c + 1 + sem_size(*x)),
            SemanticView::Get(x, y) => seq![(c + 1, GraphNodeKind::Expression, "EGet"@)] + sem_nodes(*x, c + 1) + sem_nodes(*y, c + 1 + sem_size(*x)),
            SemanticView::MapEach(x, y) => seq![(c + 1, GraphNodeKind::Expression, "EMap"@)] + sem_nodes(*x, c + 1) + sem_nodes(*y, c + 1 + sem_size(*x)),
            SemanticView::Filter(x, y) => seq![(c + 1, GraphNodeKind::Expression, "EFilter"@)] + sem_nodes(*x, c + 1) + sem_nodes(*y, c + 1 + sem_size(*x)),
            SemanticView::Fold(x, y, z) => seq![(c + 1, GraphNodeKind::Expression, "EFold"@)] + sem_nodes(*x, c + 1) + sem_nodes(*y, c + 1 + sem_size(*x)) + sem_nodes(*z, c + 1 + sem_size(*x) + sem_size(*y)),
            SemanticView::Lit(x) => seq![(c + 1, GraphNodeKind::Expression, "ELit"@)] + sem_nodes(*x, c + 1),
            SemanticView::Array(x, y) => seq![(c + 1, GraphNodeKind::Semantic, "Array"@)] + sem_nodes(*x, c + 1) + sem_nodes(*y, c + 1 + sem_size(*x)),
            SemanticView::Nil => seq![(c + 1, GraphNodeKind::Semantic, "Nil"@)],
            SemanticView::Primitive(label) => seq![(c + 1, GraphNodeKind::Goal, label)],
    }
}

/// The edges drawn for `e` when the last identifier handed out was `c`: each child's subtree
/// edges, then the edge from `e` to that child, labelled with the child's role.
pub open spec fn sem_edges(e: SemanticView, c: int) -> Seq<(int, int, Seq<char>)>
    decreases e,
{
    match e {
            SemanticView::If(x, y, z) => sem_edges(*x, c + 1) + seq![(c + 1, c + 1 + 1, "cond"@)] + sem_edges(*y, c + 1 + sem_size(*x)) + seq![(c + 1, c + 1 + sem_size(*x) + 1, "then"@)] + sem_edges(*z, c + 1 + sem_size(*x) + sem_size(*y)) + seq![(c + 1, c + 1 + sem_size(*x) + sem_size(*y) + 1, "else"@)],
            SemanticView::While(x, y, z) => sem_edges(*x, c + 1) + seq![(c + 1, c + 1 + 1, "pred"@)] + sem_edges(*y, c + 1 + sem_size(*x)) + seq![(c + 1, c + 1 + sem_size(*x) + 1, "step"@)] + sem_edges(*z, c + 1 + sem_size(*x) + sem_size(*y)) + seq![(c + 1, c + 1 + sem_size(*x) + sem_size(*y) + 1, "init"@)],
            SemanticView::App(x, y) => sem_edges(*x, c + 1) + seq![(c + 1, c + 1 + 1, "func"@)] + sem_edges(*y, c + 1 + sem_size(*x)) + seq![(c + 1, c + 1 + sem_size(*x) + 1, "arg"@)],
            SemanticView::Get(x, y) => sem_edges(*x, c + 1) + seq![(c + 1, c + 1 + 1, "arr"@)] + sem_edges(*y, c + 1 + sem_size(*x)) + seq![(c + 1, c + 1 + sem_size(*x) + 1, "key"@)],
            SemanticView::MapEach(x, y) => sem_edges(*x, c + 1) + seq![(c + 1, c + 1 + 1, "func"@)] + sem_edges(*y, c + 1 + sem_size(*x)) + seq![(c + 1, c + 1 + sem_size(*x) + 1, "list"@)],
            SemanticView::Filter(x, y) => sem_edges(*x, c + 1) + seq![(c + 1, c + 1 + 1, "pred"@)] + sem_edges(*y, c + 1 + sem_size(*x)) + seq![(c + 1, c + 1 + sem_size(*x) + 1, "list"@)],
            SemanticView::Fold(x, y, z) => sem_edges(*x, c + 1) + seq![(c + 1, c + 1 + 1, "func"@)] + sem_edges(*y, c + 1 + sem_size(*x)) + seq![(c + 1, c + 1 + sem_size(*x) + 1, "init"@)] + sem_edges(*z, c + 1 + sem_size(*x) + sem_size(*y)) + seq![(c + 1, c + 1 + sem_size(*x) + sem_size(*y) + 1, "list"@)],
            SemanticView::Lit(x) => sem_edges(*x, c + 1) + seq![(c + 1, c + 1 + 1, "value"@)],
            SemanticView::Array(x, y) => sem_edges(*x, c + 1) + seq![(c + 1, c + 1 + 1, "head"@)] + sem_edges(*y, c + 1 + sem_size(*x)) + seq![(c + 1, c + 1 + sem_size(*x) + 1, "tail"@)],
            SemanticView::Nil => Seq::empty(),
            SemanticView::Primitive(_) => Seq::empty(),
    }
}


fn push_node(graph: &mut Graph, id: NodeId, kind: GraphNodeKind, label: &str)
    requires
        all_bare(*old(graph)),
    ensures
        all_bare(*final(graph)),
        node_recs(final(graph).nodes@) == node_recs(old(graph).nodes@).push((id.0 as int, kind, label@)),
        final(graph).edges@ == old(graph).edges@,
{
    let ghost before = graph.nodes@;
    graph.nodes.push(
        GraphNode {
            id,
            kind,
            label: copy_str(label),
            span_id: None,
            semantic_tags: Vec::new(),
            metadata: StrMap::new(),
        },
    );
    assert(graph.nodes@.drop_last() =~= before);
    assert(node_recs(graph.nodes@) =~= node_recs(before).push((id.0 as int, kind, label@)));
    assert forall|i: int| 0 <= i < graph.nodes@.len() implies bare_node(#[trigger] graph.nodes@[i]) by {
        if i < before.len() {
            assert(graph.nodes@[i] == before[i]);
        }
    }
}

/// Draws `child`'s subtree, then the edge `parent -> child` labelled `edge_label`.
fn wire_child(graph: &mut Graph, counter: &mut u64, parent: NodeId, child: &SemanticExpr, edge_label: &str)
    requires
        all_bare(*old(graph)),
        *old(counter) + sem_size(child@) <= u64::MAX,
    ensures
        all_bare(*final(graph)),
        *final(counter) == *old(counter) + sem_size(child@),
        node_recs(final(graph).nodes@) == node_recs(old(graph).nodes@) + sem_nodes(child@, *old(counter) as int),
        edge_recs(final(graph).edges@) == edge_recs(old(graph).edges@) + sem_edges(child@, *old(counter) as int)
            + seq![(parent.0 as int, *old(counter) + 1, edge_label@)],
    decreases child, 1int,
{
    let child_id = build_graph(child, graph, counter);
    let ghost before = graph.edges@;
    graph.edges.push(
        GraphEdge {
            from: parent,
            to: child_id,
            kind: GraphEdgeKind::Semantic,
            label: copy_str(edge_label),
            metadata: StrMap::new(),
        },
    );
    assert(graph.edges@.drop_last() =~= before);
    assert(edge_recs(graph.edges@) =~= edge_recs(before).push((parent.0 as int, child_id.0 as int, edge_label@)));
    assert forall|i: int| 0 <= i < graph.edges@.len() implies bare_semantic_edge(#[trigger] graph.edges@[i]) by {
        if i < before.len() {
            assert(graph.edges@[i] == before[i]);
        }
    }
}

/// Draws `expr` into `graph`, numbering its nodes in preorder after `counter`; returns the
/// identifier of the node drawn for `expr` itself.
#[verifier::spinoff_prover]
fn build_graph(expr: &SemanticExpr, graph: &mut Graph, counter: &mut u64) -> (id: NodeId)
    requires
        all_bare(*old(graph)),
        *old(counter) + sem_size(expr@) <= u64::MAX,
    ensures
        all_bare(*final(graph)),
        id.0 == *old(counter) + 1,
        *final(counter) == *old(counter) + sem_size(expr@),
        node_recs(final(graph).nodes@) == node_recs(old(graph).nodes@) + sem_nodes(expr@, *old(counter) as int),
        edge_recs(final(graph).edges@) == edge_recs(old(graph).edges@) + sem_edges(expr@, *old(counter) as int),
    decreases expr, 0int,
{
    let ghost c = *counter as int;
    let ghost nodes0 = node_recs(graph.nodes@);
    let ghost edges0 = edge_recs(graph.edges@);
    *counter = *counter + 1;
    let id = NodeId::new(*counter);
    match expr {
            SemanticExpr::If { cond, then, else_ } => {
                push_node(graph, id, GraphNodeKind::Expression, "EIf");
                wire_child(graph, counter, id, &**cond, "cond");
                wire_child(graph, counter, id, &**then, "then");
                wire_child(graph, counter, id, &**else_, "else");
                assert(node_recs(graph.nodes@) =~= nodes0 + sem_nodes(expr@, c));
                assert(edge_recs(graph.edges@) =~= edges0 + sem_edges(expr@, c));
            },
            SemanticExpr::While { pred, step, init } => {
                push_node(graph, id, GraphNodeKind::Expression, "EWhile");
                wire_child(graph, counter, id, &**pred, "pred");
                wire_child(graph, counter, id, &**step, "step");
                wire_child(graph, counter, id, &**init, "init");
                assert(node_recs(graph.nodes@) =~= nodes0 + sem_nodes(expr@, c));
                assert(edge_recs(graph.edges@) =~= edges0 + sem_edges(expr@, c));
            },
            SemanticExpr::App { func, arg } => {
                push_node(graph, id, GraphNodeKind::Expression, "EApp");
                wire_child(graph, counter, id, &**func, "func");
                wire_child(graph, counter, id, &**arg, "arg");
                assert(node_recs(graph.nodes@) =~= nodes0 + sem_nodes(expr@, c));
                assert(edge_recs(graph.edges@) =~= edges0 + sem_edges(expr@, c));
            },
            SemanticExpr::Get { arr, key } => {
                push_node(graph, id, GraphNodeKind::Expression, "EGet");
                wire_child(graph, counter, id, &**arr, "arr");
                wire_child(graph, counter, id, &**key, "key");
                assert(node_recs(graph.nodes@) =~= nodes0 + sem_nodes(expr@, c));
                assert(edge_recs(graph.edges@) =~= edges0 + sem_edges(expr@, c));
            },
            SemanticExpr::MapEach { func, list } => {
                push_node(graph, id, GraphNodeKind::Expression, "EMap");
                wire_child(graph, counter, id, &**func, "func");
                wire_child(graph, counter, id, &**list, "list");
                assert(node_recs(graph.nodes@) =~= nodes0 + sem_nodes(expr@, c));
                assert(edge_recs(graph.edges@) =~= edges0 + sem_edges(expr@, c));
            },
            SemanticExpr::Filter { pred, list } => {
                push_node(graph, id, GraphNodeKind::Expression, "EFilter");
                wire_child(graph, counter, id, &**pred, "pred");
                wire_child(graph, counter, id, &**list, "list");
                assert(node_recs(graph.nodes@) =~= nodes0 + sem_nodes(expr@, c));
                assert(edge_recs(graph.edges@) =~= edges0 + sem_edges(expr@, c));
            },
            SemanticExpr::Fold { func, init, list } => {
                push_node(graph, id, GraphNodeKind::Expression, "EFold");
                wire_child(graph, counter, id, &**func, "func");
                wire_child(graph, counter, id, &**init, "init");
                wire_child(graph, counter, id, &**list, "list");
                assert(node_recs(graph.nodes@) =~= nodes0 + sem_nodes(expr@, c));
                assert(edge_recs(graph.edges@) =~= edges0 + sem_edges(expr@, c));
            },
            SemanticExpr::Array { head, tail } => {
                push_node(graph, id, GraphNodeKind::Semantic, "Array");
                wire_child(graph, counter, id, &**head, "head");
                wire_child(graph, counter, id, &**tail, "tail");
                assert(node_recs(graph.nodes@) =~= nodes0 + sem_nodes(expr@, c));
                assert(edge_recs(graph.edges@) =~= edges0 + sem_edges(expr@, c));
            },
            SemanticExpr::Lit(inner) => {
                push_node(graph, id, GraphNodeKind::Expression, "ELit");
                wire_child(graph, counter, id, &**inner, "value");
                assert(node_recs(graph.nodes@) =~= nodes0 + sem_nodes(expr@, c));
                assert(edge_recs(graph.edges@) =~= edges0 + sem_edges(expr@, c));
            },
            SemanticExpr::Nil => {
                push_node(graph, id, GraphNodeKind::Semantic, "Nil");
                assert(node_recs(graph.nodes@) =~= nodes0 + sem_nodes(expr@, c));
                assert(edge_recs(graph.edges@) =~= edges0 + sem_edges(expr@, c));
            },
            SemanticExpr::Primitive(label) => {
                push_node(graph, id, GraphNodeKind::Goal, label.as_str());
                assert(node_recs(graph.nodes@) =~= nodes0 + sem_nodes(expr@, c));
                assert(edge_recs(graph.edges@) =~= edges0 + sem_edges(expr@, c));
            },
    }
    id
}

impl SemanticExpr {
    /// The expression drawn as a tree: one node per subexpression, numbered from 1 in preorder,
    /// and one edge from each node to each of its children, labelled with the child's role.
    pub fn to_graph(&self) -> (g: Graph)
        requires
            sem_size(self@) <= u64::MAX,
        ensures
            node_recs(g.nodes@) == sem_nodes(self@, 0),
            edge_recs(g.edges@) == sem_edges(self@, 0),
            all_bare(g),
    {
        let mut graph = Graph::new();
        let mut counter: u64 = 0;
        assert(node_recs(graph.nodes@) =~= Seq::<(int, GraphNodeKind, Seq<char>)>::empty());
        assert(edge_recs(graph.edges@) =~= Seq::<(int, int, Seq<char>)>::empty());
        build_graph(self, &mut graph, &mut counter);
        assert(node_recs(graph.nodes@) =~= sem_nodes(self@, 0));
        assert(edge_recs(graph.edges@) =~= sem_edges(self@, 0));
        graph
    }
}


/// The graph drawn for an expression is a tree laid out in preorder: it has one node per
/// subexpression, one edge fewer than nodes, and its nodes carry the consecutive identifiers
/// after `c` in the order they were drawn.
pub proof fn lemma_sem_graph_shape(e: SemanticView, c: int)
    ensures
        sem_nodes(e, c).len() == sem_size(e),
        sem_edges(e, c).len() == sem_size(e) - 1,
        forall|i: int| 0 <= i < sem_nodes(e, c).len() ==> (#[trigger] sem_nodes(e, c)[i]).0 == c + 1 + i,
    decreases e,
{
    match e {
        SemanticView::If(x, y, z) => {
            lemma_sem_graph_shape(*x, c + 1);
            lemma_sem_graph_shape(*y, c + 1 + sem_size(*x));
            lemma_sem_graph_shape(*z, c + 1 + sem_size(*x) + sem_size(*y));
        },
        SemanticView::While(x, y, z) => {
            lemma_sem_graph_shape(*x, c + 1);
            lemma_sem_graph_shape(*y, c + 1 + sem_size(*x));
            lemma_sem_graph_shape(*z, c + 1 + sem_size(*x) + sem_size(*y));
        },
        SemanticView::App(x, y) => {
            lemma_sem_graph_shape(*x, c + 1);
            lemma_sem_graph_shape(*y, c + 1 + sem_size(*x));
        },
        SemanticView::Get(x, y) => {
            lemma_sem_graph_shape(*x, c + 1);
            lemma_sem_graph_shape(*y, c + 1 + sem_size(*x));
        },
        SemanticView::MapEach(x, y) => {
            lemma_sem_graph_shape(*x, c + 1);
            lemma_sem_graph_shape(*y, c + 1 + sem_size(*x));
        },
        SemanticView::Filter(x, y) => {
            lemma_sem_graph_shape(*x, c + 1);
            lemma_sem_graph_shape(*y, c + 1 + sem_size(*x));
        },
        SemanticView::Fold(x, y, z) => {
            lemma_sem_graph_shape(*x, c + 1);
            lemma_sem_graph_shape(*y, c + 1 + sem_size(*x));
            lemma_sem_graph_shape(*z, c + 1 + sem_size(*x) + sem_size(*y));
        },
        SemanticView::Lit(x) => {
            lemma_sem_graph_shape(*x, c + 1);
        },
        SemanticView::Array(x, y) => {
            lemma_sem_graph_shape(*x, c + 1);
            lemma_sem_graph_shape(*y, c + 1 + sem_size(*x));
        },
        _ => {},
    }
}

} // verus!
