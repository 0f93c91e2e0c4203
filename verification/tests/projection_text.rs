use typelude_tooling::projection_text::{
    find_projections, find_where_bound_projections, last_path_segment, matching_delimiter, parse_assoc_suffix,
    parse_trait_path, split_top_level, split_top_level_as, split_top_level_colon, top_level_char,
};

fn chars(s: &str) -> Vec<char> {
    s.chars().collect()
}

fn text(v: &[char]) -> String {
    v.iter().collect()
}

#[test]
fn finds_nested_projection_text() {
    let projections = find_projections("<<<State as Len>::Output as Sub<N>>::Output as IsZero>::Output");
    assert!(projections.iter().any(|projection| projection.trait_name == "IsZero"));
    assert!(projections.iter().any(|projection| projection.trait_name == "Sub"));
    assert!(projections.iter().any(|projection| projection.trait_name == "Len"));
}

#[test]
fn finds_trait_bounds_as_synthetic_output_projections() {
    let projections = find_where_bound_projections("(): Apply<Pred, State>, State: Len + Get<N0>");
    assert!(projections.iter().any(|projection| projection.trait_name == "Apply"));
    assert!(projections.iter().any(|projection| projection.trait_name == "Len"));
    assert!(projections.iter().any(|projection| projection.trait_name == "Get"));
}

#[test]
fn splits_top_level_only() {
    assert_eq!(split_top_level("A<B, C>, (D, E), F", ','), vec!["A<B, C>", "(D, E)", "F"]);
}

#[test]
fn split_drops_empty_pieces_and_trims() {
    assert_eq!(split_top_level(" A ,, [B, C] ,", ','), vec!["A", "[B, C]"]);
    assert!(split_top_level("   ", ',').is_empty());
    assert_eq!(split_top_level("Len + Get<N0>", '+'), vec!["Len", "Get<N0>"]);
}

#[test]
fn nested_projections_are_listed_outermost_first() {
    let projections = find_projections("<<<State as Len>::Output as Sub<N>>::Output as IsZero>::Output");
    assert_eq!(projections.len(), 3);
    assert_eq!(projections[0].trait_name, "IsZero");
    assert_eq!(projections[0].source, "<<<State as Len>::Output as Sub<N>>::Output as IsZero>::Output");
    assert_eq!(projections[0].self_ty, "<<State as Len>::Output as Sub<N>>::Output");
    assert_eq!(projections[1].trait_name, "Sub");
    assert_eq!(projections[1].trait_args, vec!["N"]);
    assert_eq!(projections[2].self_ty, "State");
    assert_eq!(projections[2].assoc_name, "Output");
    assert!(!projections[2].synthetic);
}

#[test]
fn where_bounds_give_output_projections() {
    let projections = find_where_bound_projections("(): Apply<Pred, State>, State: Len + Get<N0> + Sized + 'a, for<'b> X: Y");
    assert_eq!(projections.len(), 3);
    assert_eq!(projections[0].source, "<() as Apply<Pred, State>>::Output");
    assert_eq!(projections[0].trait_args, vec!["Pred", "State"]);
    assert_eq!(projections[1].self_ty, "State");
    assert_eq!(projections[2].source, "<State as Get<N0>>::Output");
    assert!(projections[2].synthetic);
}

#[test]
fn trait_paths_keep_their_last_segment() {
    let (name, args) = parse_trait_path(&chars("  crate::ops::r#Apply<A, B<C, D>>  "));
    assert_eq!(name, "Apply");
    assert_eq!(args, vec!["A", "B<C, D>"]);
    assert_eq!(last_path_segment(&chars("a:::b")), ":b");
    assert_eq!(last_path_segment(&chars("std::vec::Vec")), "Vec");
}

#[test]
fn brackets_and_separators_are_found_at_top_level() {
    let v = chars("A<(B, C)>, D");
    assert_eq!(matching_delimiter(&v, 1, '<', '>'), Some(8));
    assert_eq!(top_level_char(&v, ','), Some(9));
    let (a, b) = split_top_level_as(&chars("<T as U> as Trait<X>")).unwrap();
    assert_eq!(text(&a), "<T as U>");
    assert_eq!(text(&b), "Trait<X>");
    assert!(split_top_level_as(&chars("T as ")).is_none());
    let (x, y) = split_top_level_colon(&chars("a::B<C: D>: E")).unwrap();
    assert_eq!(text(&x), "a::B<C: D>");
    assert_eq!(text(&y), " E");
    assert_eq!(parse_assoc_suffix(&chars("> :: Output rest"), 1), Some((String::from("Output"), 11)));
    assert_eq!(parse_assoc_suffix(&chars(">::"), 1), None);
}
