use typelude_tooling::pattern_match::{
    bind_pattern, compact, env_key, find_alias_refs, impl_header, is_branchable_concrete, is_unknown, parse_constructor,
    parse_tuple, pop_key, substitute, AliasDef, MatchConfidence,
};
use typelude_tooling::strmap::StrMap;

fn chars(s: &str) -> Vec<char> {
    s.chars().collect()
}

fn env(pairs: &[(&str, &str)]) -> StrMap {
    let mut m = StrMap::new();
    for (k, v) in pairs {
        m.insert(String::from(*k), String::from(*v));
    }
    m
}

fn params(names: &[&str]) -> Vec<String> {
    names.iter().map(|n| String::from(*n)).collect()
}

#[test]
fn substitutes_whole_identifiers_only() {
    let e = env(&[("N", "Succ<Zero>"), ("S", "State")]);
    assert_eq!(substitute("Apply<N, NS, S>", &e), "Apply<Succ<Zero>, NS, State>");
    assert_eq!(substitute("1N_2 + N", &e), "1N_2 + Succ<Zero>");
    assert_eq!(substitute("Apply<N>", &StrMap::new()), "Apply<N>");
}

#[test]
fn compacts_and_classifies_type_texts() {
    assert_eq!(compact(" A < B ,\tC > "), "A<B,C>");
    assert!(is_unknown("  T "));
    assert!(is_unknown("<T as Len>::Output"));
    assert!(!is_unknown("(True, False)"));
    assert!(is_branchable_concrete(" TArr<U1, TTerm> "));
    assert!(is_branchable_concrete("Zero"));
    assert!(!is_branchable_concrete("One"));
}

#[test]
fn parses_constructors_and_tuples() {
    let (name, args) = parse_constructor(&chars(" Apply<A, B<C, D>>  ")).unwrap();
    assert_eq!(name, "Apply");
    assert_eq!(args, vec!["A", "B<C, D>"]);
    assert!(parse_constructor(&chars("Apply<A>::Output")).is_none());
    assert_eq!(parse_tuple(&chars("(A, (B, C))")).unwrap(), vec!["A", "(B, C)"]);
    assert!(parse_tuple(&chars("(A)(B)")).is_none());
}

#[test]
fn binds_generic_parameters() {
    let mut e = StrMap::new();
    let mut confidence = MatchConfidence::Exact;
    assert!(bind_pattern("Apply<H, T>", "Apply<U1, TTerm>", &params(&["H", "T"]), &mut e, &mut confidence));
    assert_eq!(e.get("H").map(|v| v.as_str()), Some("U1"));
    assert_eq!(e.get("T").map(|v| v.as_str()), Some("TTerm"));
    assert_eq!(confidence, MatchConfidence::Exact);
    assert_eq!(confidence.label(), "exact");
    let mut e2 = StrMap::new();
    assert!(bind_pattern("TArr<H, T>", "TArr<U1, TTerm>", &params(&["H", "T"]), &mut e2, &mut confidence));
    assert_eq!(confidence, MatchConfidence::Ambiguous);
    assert!(e2.get("H").is_none());
}

#[test]
fn bound_parameters_must_agree() {
    let mut e = StrMap::new();
    let mut confidence = MatchConfidence::Exact;
    assert!(!bind_pattern("Pair<X, X>", "Pair<A, B>", &params(&["X"]), &mut e, &mut confidence));
    assert_eq!(e.get("X").map(|v| v.as_str()), Some("A"));
    let mut e2 = StrMap::new();
    assert!(bind_pattern("Pair<X, X>", "Pair<A,  A>", &params(&["X"]), &mut e2, &mut confidence));
}

#[test]
fn concrete_branch_against_unknown_is_ambiguous() {
    let mut e = StrMap::new();
    let mut confidence = MatchConfidence::Exact;
    assert!(bind_pattern("True", "<B as Not>::Output", &params(&[]), &mut e, &mut confidence));
    assert_eq!(confidence, MatchConfidence::Ambiguous);
    assert_eq!(confidence.label(), "ambiguous");
    assert!(!bind_pattern("(A, B)", "(C)", &params(&[]), &mut e, &mut confidence));
}

#[test]
fn renders_headers_keys_and_stacks() {
    assert_eq!(impl_header("impl   Apply<Op>\n for () { type Output = X; }", "Apply<Op>", "()"), "impl Apply<Op> for ()");
    assert_eq!(impl_header("", "Apply<Op>", "()"), "impl Apply<Op> for ()");
    assert_eq!(env_key(&env(&[("N", "Succ < Zero >"), ("A", "B")])), "A=B,N=Succ<Zero>");
    let mut stack = vec![String::from("a"), String::from("b")];
    pop_key(&mut stack, "a");
    assert_eq!(stack.len(), 2);
    pop_key(&mut stack, "b");
    assert_eq!(stack, vec![String::from("a")]);
}

#[test]
fn finds_generic_alias_uses() {
    let aliases = vec![
        AliasDef {
            name: String::from("Fib"),
            def_path: String::from("fixture::Fib"),
            generics: vec![String::from("N")],
            source: String::from("type Fib<N> = X;"),
            rhs: String::from("X"),
        },
        AliasDef {
            name: String::from("Plain"),
            def_path: String::from("fixture::Plain"),
            generics: vec![],
            source: String::from("type Plain = Y;"),
            rhs: String::from("Y"),
        },
    ];
    let refs = find_alias_refs("Wrap<Fib <Succ<N>>, Plain<Z>, Fibber<A>>", &aliases);
    assert_eq!(refs.len(), 1);
    assert_eq!(refs[0].name, "Fib");
    assert_eq!(refs[0].args, vec!["Succ<N>"]);
    assert_eq!(refs[0].source, "Fib <Succ<N>>");
}
