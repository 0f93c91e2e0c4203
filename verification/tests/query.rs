use typelude_tooling::query::{def_index_matches, owner_path_matches, parse_u32, QueryMatchKind, QueryTargetKind};

#[test]
fn parses_query_target_from_labels() {
    assert_eq!(QueryTargetKind::from_label(Some("owner")), QueryTargetKind::AnyOwner);
    assert_eq!(QueryTargetKind::from_label(Some("impl")), QueryTargetKind::ImplOwner);
    assert_eq!(QueryTargetKind::from_label(Some("assoc_item")), QueryTargetKind::AssocItemOwner);
}

#[test]
fn parses_query_match_from_labels() {
    assert_eq!(QueryMatchKind::from_label(Some("substring")), QueryMatchKind::Substring);
    assert_eq!(QueryMatchKind::from_label(Some("suffix")), QueryMatchKind::Suffix);
    assert_eq!(QueryMatchKind::from_label(Some("exact")), QueryMatchKind::Exact);
    assert_eq!(QueryMatchKind::from_label(Some("def_id")), QueryMatchKind::DefId);
}

#[test]
fn matches_owner_path_using_string_policies() {
    let path = "foo::bar::Baz";
    assert!(owner_path_matches(path, "bar::Baz", QueryMatchKind::Suffix));
    assert!(owner_path_matches(path, "foo::bar::Baz", QueryMatchKind::Exact));
    assert!(owner_path_matches(path, "bar", QueryMatchKind::Substring));
    assert!(!owner_path_matches(path, "123", QueryMatchKind::DefId));
}

#[test]
fn matches_def_index_textually() {
    assert!(def_index_matches(12, "12"));
    assert!(!def_index_matches(12, "13"));
}

#[test]
fn labels_default_when_absent_or_unknown() {
    assert_eq!(QueryTargetKind::from_label(None), QueryTargetKind::AnyOwner);
    assert_eq!(QueryTargetKind::from_label(Some("other")), QueryTargetKind::AnyOwner);
    assert_eq!(QueryMatchKind::from_label(None), QueryMatchKind::Exact);
    assert_eq!(QueryMatchKind::from_label(Some("other")), QueryMatchKind::Suffix);
}

#[test]
fn labels_round_trip() {
    for kind in [QueryTargetKind::AnyOwner, QueryTargetKind::ImplOwner, QueryTargetKind::AssocItemOwner] {
        assert_eq!(QueryTargetKind::from_label(Some(kind.label())), kind);
    }
    for kind in [QueryMatchKind::Substring, QueryMatchKind::Suffix, QueryMatchKind::Exact, QueryMatchKind::DefId] {
        assert_eq!(QueryMatchKind::from_label(Some(kind.label())), kind);
    }
}

#[test]
fn suffix_match_needs_a_path_boundary() {
    assert!(!owner_path_matches("foo::barBaz", "Baz", QueryMatchKind::Suffix));
    assert!(owner_path_matches("Baz", "Baz", QueryMatchKind::Suffix));
    assert!(!owner_path_matches("foo::bar::Baz", "bar", QueryMatchKind::Exact));
}

#[test]
fn parses_u32_like_std() {
    assert_eq!(parse_u32("4294967295"), Some(4294967295));
    assert_eq!(parse_u32("4294967296"), None);
    assert_eq!(parse_u32("+7"), Some(7));
    assert_eq!(parse_u32("+"), None);
    assert_eq!(parse_u32(""), None);
    assert_eq!(parse_u32("-1"), None);
    assert_eq!(parse_u32("1a"), None);
    assert_eq!(parse_u32("007"), Some(7));
    assert!(!def_index_matches(0, "x"));
}
