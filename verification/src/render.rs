//! Rendering of type expressions in the library's surface notation.
use vstd::prelude::*;

use crate::caps::{normalize_capability_name, normalize_spec};
use crate::expr::{angle_segments, char_views, split_angle};
use crate::naming::{compress_spec, compress_symbol_name};
use crate::query::all_digits;
use crate::text::{
    chars_eq, contains_chars, ends_with_chars, join, join_seq, push_str, seq_contains, seq_ends_with, seq_starts_with,
    slice_range, starts_with_chars, str_chars, string_from_chars, string_from_range, texts, trim_chars,
};

verus! {

/// How a rendered text is meant to be shown.
#[derive(Debug, Clone, Copy, PartialEq, Eq, Structural)]
pub enum RenderMode {
    Text,
    Json,
}

/// A text together with the mode it was rendered for.
#[derive(Debug, Clone, PartialEq, Eq)]
pub struct RenderedText {
    pub mode: RenderMode,
    pub text: String,
}

/// `s` is `p`, then at least one character, and ends with `>`.
pub open spec fn is_wrapped(s: Seq<char>, p: Seq<char>) -> bool {
    seq_starts_with(s, p) && s.len() > p.len() && s.last() == '>'
}

/// What stands between the prefix `p` and the final `>` of a wrapped `s`.
pub open spec fn wrapped_inner(s: Seq<char>, p: Seq<char>) -> Seq<char> {
    s.subrange(p.len() as int, s.len() - 1)
}

/// The rendered items of an `Array<Head, Tail>` chain ending in `Nil`; `None` when the chain
/// breaks off.
pub open spec fn array_items_spec(cur: Seq<char>) -> Option<Seq<Seq<char>>>
    decreases cur.len(), 0int,
{
    if cur == "Nil"@ {
        Some(Seq::empty())
    } else if is_wrapped(cur, "Array<"@) {
        let parts = angle_segments(wrapped_inner(cur, "Array<"@));
        if parts.len() != 2 {
            None
        } else if parts[0].len() < cur.len() && parts[1].len() < cur.len() {
            match array_items_spec(parts[1]) {
                Some(rest) => Some(seq![render_spec(parts[0])] + rest),
                None => None,
            }
        } else {
            None
        }
    } else {
        None
    }
}

/// A list written as `[a, b]`: `Nil`, or an `Array<..>` chain ending in `Nil`.
pub open spec fn render_array_spec(s: Seq<char>) -> Option<Seq<char>>
    decreases s.len(), 1int,
{
    if s == "Nil"@ {
        Some("[]"@)
    } else if !is_wrapped(s, "Array<"@) {
        None
    } else {
        match array_items_spec(s) {
            Some(items) => Some("["@ + join_seq(items, ", "@) + "]"@),
            None => None,
        }
    }
}

/// The innermost function of an `EApp<F, A>` chain and its rendered arguments, innermost first.
pub open spec fn eapp_chain_spec(cur: Seq<char>) -> Option<(Seq<char>, Seq<Seq<char>>)>
    decreases cur.len(), 0int,
{
    if is_wrapped(cur, "EApp<"@) {
        let parts = angle_segments(wrapped_inner(cur, "EApp<"@));
        if parts.len() != 2 {
            None
        } else if parts[0].len() < cur.len() && parts[1].len() < cur.len() {
            match eapp_chain_spec(parts[0]) {
                Some((head, args)) => Some((head, args.push(render_spec(parts[1])))),
                None => None,
            }
        } else {
            None
        }
    } else {
        Some((cur, Seq::empty()))
    }
}

/// A chain of applications written as a call `f(a, b)`.
pub open spec fn render_eapp_spec(s: Seq<char>) -> Option<Seq<char>>
    decreases s.len(), 1int,
{
    match eapp_chain_spec(s) {
        Some((head, args)) => if args.len() == 0 {
            None
        } else {
            Some(compress_spec(head) + "("@ + join_seq(args, ", "@) + ")"@)
        },
        None => None,
    }
}

/// The surface rendering of a trimmed expression text: lists, calls, numerals `U<digits>`,
/// shortened symbol paths, and capability names, tried in that order.
pub open spec fn render_spec(s: Seq<char>) -> Seq<char>
    decreases s.len(), 2int,
{
    match render_array_spec(s) {
        Some(r) => r,
        None => match render_eapp_spec(s) {
            Some(r) => r,
            None => if s.len() > 0 && s[0] == 'U' && all_digits(s.drop_first()) {
                s.drop_first()
            } else if seq_ends_with(s, "Helper"@) || seq_contains(s, "::"@) {
                compress_spec(s)
            } else {
                normalize_spec(s)
            },
        },
    }
}

/// Whether `s` is `p` wrapped up to a final `>`.
fn wrapped(s: &Vec<char>, p: &str) -> (b: bool)
    ensures
        b == is_wrapped(s@, p@),
{
    let pv = str_chars(p);
    starts_with_chars(s, &pv) && s.len() > pv.len() && s[s.len() - 1] == '>'
}

/// The two parts of a wrapped `s` around its top-level comma, if there are exactly two.
fn wrapped_parts(s: &Vec<char>, p: &str) -> (r: Option<(Vec<char>, Vec<char>)>)
    requires
        is_wrapped(s@, p@),
    ensures
        match r {
            Some((a, b)) => angle_segments(wrapped_inner(s@, p@)).len() == 2 && a@ == angle_segments(
                wrapped_inner(s@, p@),
            )[0] && b@ == angle_segments(wrapped_inner(s@, p@))[1] && a@.len() < s@.len() && b@.len()
                < s@.len(),
            None => angle_segments(wrapped_inner(s@, p@)).len() != 2,
        },
{
    let pv = str_chars(p);
    let inner = slice_range(s, pv.len(), s.len() - 1);
    let mut parts = split_angle(&inner);
    if parts.len() != 2 {
        return None;
    }
    assert(char_views(parts@)[0] == parts@[0]@);
    assert(char_views(parts@)[1] == parts@[1]@);
    let b = parts.pop().unwrap();
    let a = parts.pop().unwrap();
    Some((a, b))
}

fn array_items(cur: &Vec<char>) -> (r: Option<Vec<String>>)
    ensures
        match r {
            Some(items) => array_items_spec(cur@) == Some(texts(items@)),
            None => array_items_spec(cur@) is None,
        },
    decreases cur.len(), 0int,
{
    let nil = str_chars("Nil");
    if chars_eq(cur, &nil) {
        let items: Vec<String> = Vec::new();
        assert(texts(items@) =~= Seq::<Seq<char>>::empty());
        return Some(items);
    }
    if !wrapped(cur, "Array<") {
        return None;
    }
    match wrapped_parts(cur, "Array<") {
        None => None,
        Some((head, tail)) => match array_items(&tail) {
            None => None,
            Some(rest) => {
                let first = render_expression(&head);
                let mut items: Vec<String> = Vec::new();
                items.push(first);
                let mut rest = rest;
                let ghost rest_view = texts(rest@);
                items.append(&mut rest);
                assert(texts(items@) =~= seq![render_spec(head@)] + rest_view);
                Some(items)
            },
        },
    }
}

fn render_array(s: &Vec<char>) -> (r: Option<String>)
    ensures
        match r {
            Some(t) => render_array_spec(s@) == Some(t@),
            None => render_array_spec(s@) is None,
        },
    decreases s.len(), 1int,
{
    let nil = str_chars("Nil");
    if chars_eq(s, &nil) {
        let mut out = String::new();
        push_str(&mut out, "[]");
        assert(out@ =~= "[]"@);
        return Some(out);
    }
    if !wrapped(s, "Array<") {
        return None;
    }
    match array_items(s) {
        Some(items) => {
            let mut out = String::new();
            push_str(&mut out, "[");
            let joined = join(&items, ", ");
            push_str(&mut out, joined.as_str());
            push_str(&mut out, "]");
            assert(out@ =~= "["@ + join_seq(texts(items@), ", "@) + "]"@);
            Some(out)
        },
        None => None,
    }
}

fn eapp_chain(cur: &Vec<char>) -> (r: Option<(Vec<char>, Vec<String>)>)
    ensures
        match r {
            Some((head, args)) => eapp_chain_spec(cur@) == Some((head@, texts(args@))),
            None => eapp_chain_spec(cur@) is None,
        },
    decreases cur.len(), 0int,
{
    if !wrapped(cur, "EApp<") {
        let head = slice_range(cur, 0, cur.len());
        assert(head@ =~= cur@);
        let args: Vec<String> = Vec::new();
        assert(texts(args@) =~= Seq::<Seq<char>>::empty());
        return Some((head, args));
    }
    match wrapped_parts(cur, "EApp<") {
        None => None,
        Some((func, arg)) => match eapp_chain(&func) {
            None => None,
            Some((head, args)) => {
                let rendered = render_expression(&arg);
                let mut args = args;
                let ghost before = texts(args@);
                args.push(rendered);
                assert(texts(args@) =~= before.push(render_spec(arg@)));
                Some((head, args))
            },
        },
    }
}

fn render_eapp(s: &Vec<char>) -> (r: Option<String>)
    ensures
        match r {
            Some(t) => render_eapp_spec(s@) == Some(t@),
            None => render_eapp_spec(s@) is None,
        },
    decreases s.len(), 1int,
{
    match eapp_chain(s) {
        Some((head, args)) => {
            if args.len() == 0 {
                return None;
            }
            let head_text = string_from_chars(&head);
            let mut out = compress_symbol_name(head_text.as_str());
            push_str(&mut out, "(");
            let joined = join(&args, ", ");
            push_str(&mut out, joined.as_str());
            push_str(&mut out, ")");
            Some(out)
        },
        None => None,
    }
}

/// The surface rendering of a trimmed expression text.
fn render_expression(s: &Vec<char>) -> (r: String)
    ensures
        r@ == render_spec(s@),
    decreases s.len(), 2int,
{
    if let Some(rendered) = render_array(s) {
        return rendered;
    }
    if let Some(rendered) = render_eapp(s) {
        return rendered;
    }
    if s.len() > 0 && s[0] == 'U' {
        let mut digits = true;
        let mut i: usize = 1;
        while i < s.len()
            invariant
                1 <= i <= s.len(),
                digits == (forall|j: int| 1 <= j < i ==> '0' <= #[trigger] s@[j] <= '9'),
            decreases s.len() - i,
        {
            if !('0' <= s[i] && s[i] <= '9') {
                digits = false;
            }
            i += 1;
        }
        assert(digits == all_digits(s@.drop_first())) by {
            if digits {
                assert forall|j: int| 0 <= j < s@.drop_first().len() implies crate::text::is_ascii_digit_char(
                    #[trigger] s@.drop_first()[j],
                ) by {
                    assert(s@.drop_first()[j] == s@[j + 1]);
                }
            } else {
                let j = choose|j: int| 1 <= j < s@.len() && !('0' <= #[trigger] s@[j] <= '9');
                assert(s@.drop_first()[j - 1] == s@[j]);
            }
        }
        if digits {
            return string_from_range(s, 1, s.len());
        }
    }
    let text = string_from_chars(s);
    let helper = str_chars("Helper");
    let sep = str_chars("::");
    if ends_with_chars(s, &helper) || contains_chars(s, &sep) {
        compress_symbol_name(text.as_str())
    } else {
        normalize_capability_name(text.as_str())
    }
}

/// Numerals `U<digits>` render as their digits, and `Nil` as the empty list.
pub proof fn numerals_and_nil_render(d: Seq<char>)
    requires
        d.len() > 0,
        all_digits(d),
    ensures
        render_spec("U"@ + d) == d,
        render_spec("Nil"@) == "[]"@,
{
    reveal_strlit("U");
    reveal_strlit("Nil");
    reveal_strlit("Array<");
    reveal_strlit("EApp<");
    let s = "U"@ + d;
    assert(s[0] == 'U');
    assert(s != "Nil"@) by {
        assert("Nil"@[0] != s[0]);
    }
    assert(!seq_starts_with(s, "Array<"@)) by {
        if seq_starts_with(s, "Array<"@) {
            assert(s.subrange(0, 6)[0] == s[0]);
        }
    }
    assert(!seq_starts_with(s, "EApp<"@)) by {
        if seq_starts_with(s, "EApp<"@) {
            assert(s.subrange(0, 5)[0] == s[0]);
        }
    }
    assert(s.drop_first() =~= d);
}

/// Renders type expressions in the library's surface notation.
#[derive(Debug, Default)]
pub struct TypeludeRenderer;

impl TypeludeRenderer {
    pub fn new() -> (r: Self) {
        TypeludeRenderer
    }

    /// The surface rendering of `input`, trimmed, for `mode`.
    pub fn render_type_expression(&self, input: &str, mode: RenderMode) -> (r: RenderedText)
        ensures
            r.mode == mode,
            r.text@ == render_spec(crate::text::trim(input@)),
    {
        let v = str_chars(input);
        let t = trim_chars(&v);
        RenderedText { mode, text: render_expression(&t) }
    }
}

} // verus!
