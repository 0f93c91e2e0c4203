use typelude_tooling::caps::{classify_capability, normalize_capability_name, CapabilityKind};
use typelude_tooling::naming::compress_symbol_name;
use typelude_tooling::render::{RenderMode, TypeludeRenderer};

#[test]
fn compresses_helper_names() {
    assert_eq!(compress_symbol_name("typelude_std::std::col::array::GetHelper"), "Get");
    assert_eq!(compress_symbol_name("EIf"), "If");
}

#[test]
fn renders_array_as_list() {
    let rendered = TypeludeRenderer::new().render_type_expression("Array<U1, Array<U2, Nil>>", RenderMode::Text);
    assert_eq!(rendered.text, "[1, 2]");
}

#[test]
fn renders_nested_eapp() {
    let rendered = TypeludeRenderer::new().render_type_expression("EApp<EApp<EIf, U1>, U0>", RenderMode::Text);
    assert_eq!(rendered.text, "If(1, 0)");
}

#[test]
fn compress_strips_backticks_and_repeated_helpers() {
    assert_eq!(compress_symbol_name("`a::b::FooHelperHelper`"), "Foo");
    assert_eq!(compress_symbol_name("a::EApp"), "Apply");
    assert_eq!(compress_symbol_name("plain"), "plain");
}

#[test]
fn classifies_capabilities_in_order() {
    assert_eq!(classify_capability("IsBool"), CapabilityKind::Bool);
    assert_eq!(classify_capability("ArrayLike"), CapabilityKind::List);
    assert_eq!(classify_capability("TyFn"), CapabilityKind::Callable);
    assert_eq!(classify_capability("GetKey"), CapabilityKind::LookupKey);
    assert_eq!(classify_capability("Add"), CapabilityKind::SupportsAdd);
    assert_eq!(classify_capability("PartialEq"), CapabilityKind::SupportsCompare);
    assert_eq!(classify_capability("Other"), CapabilityKind::Unknown);
    assert_eq!(classify_capability("BoolList"), CapabilityKind::Bool);
}

#[test]
fn normalizes_capability_names() {
    assert_eq!(normalize_capability_name("  `ListLike`  "), "List");
    assert_eq!(normalize_capability_name(" `Other` "), "Other");
}

#[test]
fn renders_numerals_lists_and_paths() {
    let renderer = TypeludeRenderer::new();
    let text = |input: &str| renderer.render_type_expression(input, RenderMode::Json).text;
    assert_eq!(text("U42"), "42");
    assert_eq!(text("Nil"), "[]");
    assert_eq!(text("a::b::MapHelper"), "Map");
    assert_eq!(text("Array<U1, Broken>"), "List");
    assert_eq!(text("EApp<F, Array<U3, Nil>>"), "F([3])");
    assert_eq!(renderer.render_type_expression("U1", RenderMode::Json).mode, RenderMode::Json);
}
