use typelude_tooling::expr::{SemanticExpr, TypeExpr};
use typelude_tooling::graph::GraphNodeKind;

#[test]
fn parses_bare_name() {
    let expr = TypeExpr::parse("Nil").expect("Nil should parse");
    assert_eq!(expr, TypeExpr::Name(String::from("Nil")));
}

#[test]
fn parses_generic() {
    let expr = TypeExpr::parse("EIf<True, U1, U0>").expect("generic should parse");
    assert_eq!(
        expr,
        TypeExpr::Generic {
            name: String::from("EIf"),
            args: vec![
                TypeExpr::Name(String::from("True")),
                TypeExpr::Name(String::from("U1")),
                TypeExpr::Name(String::from("U0")),
            ],
        }
    );
}

#[test]
fn lifts_eif_to_semantic() {
    let expr = TypeExpr::parse("EIf<True, U1, U0>").expect("expression should parse");
    assert!(matches!(expr.lift(), SemanticExpr::If { .. }));
}

#[test]
fn lifts_ewhile_to_semantic() {
    let expr = TypeExpr::parse("EWhile<Pred, Step, U0>").expect("expression should parse");
    assert!(matches!(expr.lift(), SemanticExpr::While { .. }));
}

#[test]
fn lifts_nil() {
    let expr = TypeExpr::parse("Nil").expect("Nil should parse");
    assert_eq!(expr.lift(), SemanticExpr::Nil);
}

#[test]
fn lifts_array_cons() {
    let expr = TypeExpr::parse("Array<U1, Nil>").expect("array should parse");
    assert!(matches!(expr.lift(), SemanticExpr::Array { .. }));
}

#[test]
fn eif_graph_has_three_children() {
    let expr = TypeExpr::parse("EIf<True, U1, U0>").expect("expression should parse");
    let graph = expr.lift().to_graph();
    assert_eq!(graph.nodes.len(), 4);
    assert_eq!(graph.edges.len(), 3);
    let labels: Vec<&str> = graph.edges.iter().map(|edge| edge.label.as_str()).collect();
    assert!(labels.contains(&"cond"));
    assert!(labels.contains(&"then"));
    assert!(labels.contains(&"else"));
}

#[test]
fn eapp_graph_has_two_children() {
    let expr = TypeExpr::parse("EApp<MyFn, U3>").expect("expression should parse");
    let graph = expr.lift().to_graph();
    assert_eq!(graph.nodes.len(), 3);
    assert_eq!(graph.edges.len(), 2);
}

#[test]
fn nested_eif_graph_is_correct() {
    let expr = TypeExpr::parse("EIf<True, EApp<F, U1>, U0>").expect("expression should parse");
    assert_eq!(expr.lift().to_graph().nodes.len(), 6);
}

#[test]
fn lifts_path_qualified_eif() {
    let expr = TypeExpr::parse("crate::path::EIf<True, U1, U0>").expect("expression should parse");
    assert!(matches!(expr.lift(), SemanticExpr::If { .. }));
}

#[test]
fn lifts_path_qualified_tarr_and_tterm() {
    let expr = TypeExpr::parse("typelude_col::array::TArr<U1, typelude_col::array::TTerm>")
        .expect("expression should parse");
    let sem = expr.lift();
    assert!(matches!(sem, SemanticExpr::Array { .. }));
    if let SemanticExpr::Array { head, tail } = sem {
        assert!(matches!(*head, SemanticExpr::Primitive(_)));
        assert_eq!(*tail, SemanticExpr::Nil);
    } else {
        panic!("expected Array");
    }
}

#[test]
fn lifts_path_qualified_eget_over_tarr() {
    let expr = TypeExpr::parse(
        "typelude_col::array::EGet<typelude_col::array::TArr<U1, typelude_col::array::TTerm>, Zero>",
    )
    .expect("expression should parse");
    let sem = expr.lift();
    assert!(matches!(sem, SemanticExpr::Get { .. }));
    if let SemanticExpr::Get { arr, key } = sem {
        assert!(matches!(*arr, SemanticExpr::Array { .. }));
        assert!(matches!(*key, SemanticExpr::Primitive(_)));
    } else {
        panic!("expected Get");
    }
}

#[test]
fn nested_path_tarr_graph_matches_nested_array_shape() {
    let tarr = TypeExpr::parse(
        "typelude_col::array::TArr<U1, typelude_col::array::TArr<U2, typelude_col::array::TTerm>>",
    )
    .expect("expression should parse");
    let array = TypeExpr::parse("Array<U1, Array<U2, Nil>>").expect("array should parse");
    assert_eq!(tarr.lift().to_graph().nodes.len(), array.lift().to_graph().nodes.len());
    assert_eq!(tarr.lift().to_graph().edges.len(), array.lift().to_graph().edges.len());
}

#[test]
fn blank_input_has_no_expression() {
    assert!(TypeExpr::parse("   ").is_none());
    assert!(TypeExpr::parse("").is_none());
}

#[test]
fn unbalanced_brackets_stay_a_name() {
    assert_eq!(TypeExpr::parse("A<B>>"), Some(TypeExpr::Name(String::from("A<B>>"))));
    assert_eq!(
        TypeExpr::parse("A>B<C>"),
        Some(TypeExpr::Generic { name: String::from("A>B"), args: vec![TypeExpr::Name(String::from("C"))] })
    );
    assert_eq!(TypeExpr::parse(" Foo<Bar "), Some(TypeExpr::Name(String::from("Foo<Bar"))));
}

#[test]
fn unknown_generic_keeps_its_text() {
    let expr = TypeExpr::parse("Foo<A,B< C >>").expect("generic should parse");
    assert_eq!(expr.lift(), SemanticExpr::Primitive(String::from("Foo<A, B<C>>")));
    let wrong_arity = TypeExpr::parse("EIf<A, B>").expect("generic should parse");
    assert_eq!(wrong_arity.lift(), SemanticExpr::Primitive(String::from("EIf<A, B>")));
}

#[test]
fn graph_is_numbered_in_preorder() {
    let graph = TypeExpr::parse("EIf<True, EApp<F, U1>, U0>").expect("parse").lift().to_graph();
    let ids: Vec<u64> = graph.nodes.iter().map(|node| node.id.0).collect();
    assert_eq!(ids, vec![1, 2, 3, 4, 5, 6]);
    assert_eq!(graph.nodes[0].kind, GraphNodeKind::Expression);
    assert_eq!(graph.nodes[0].label, "EIf");
    assert_eq!(graph.nodes[1].kind, GraphNodeKind::Goal);
    assert_eq!(graph.nodes[1].label, "True");
    let edges: Vec<(u64, u64, &str)> =
        graph.edges.iter().map(|edge| (edge.from.0, edge.to.0, edge.label.as_str())).collect();
    assert_eq!(
        edges,
        vec![(1, 2, "cond"), (3, 4, "func"), (3, 5, "arg"), (1, 3, "then"), (1, 6, "else")]
    );
    assert_eq!(graph.edges.len(), graph.nodes.len() - 1);
}

#[test]
fn formatted_expressions_parse_back() {
    let nested = TypeExpr::Generic {
        name: String::from("EIf"),
        args: vec![
            TypeExpr::Name(String::from("True")),
            TypeExpr::Generic {
                name: String::from("Array"),
                args: vec![TypeExpr::Name(String::from("U1")), TypeExpr::Name(String::from("Nil"))],
            },
            TypeExpr::Name(String::from("crate::U2")),
        ],
    };
    let text = typelude_tooling::expr::format_type_expr(&nested);
    assert_eq!(text, "EIf<True, Array<U1, Nil>, crate::U2>");
    assert_eq!(TypeExpr::parse(&text), Some(nested));
    let bare = TypeExpr::Name(String::from("Nil"));
    assert_eq!(TypeExpr::parse(&typelude_tooling::expr::format_type_expr(&bare)), Some(bare));
}
