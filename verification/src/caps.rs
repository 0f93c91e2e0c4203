//! Capabilities that solver bounds ask of a type.
use vstd::prelude::*;

use crate::naming::{trim_char, trim_char_str};
use crate::text::{copy_str, seq_contains, str_contains, trim, trim_str};

verus! {

/// What a bound asks of a type.
#[derive(Debug, Clone, Copy, PartialEq, Eq, Structural)]
pub enum CapabilityKind {
    Bool,
    List,
    Callable,
    LookupKey,
    SupportsAdd,
    SupportsCompare,
    Unknown,
}

/// The capability a bound's text names: the first family, in this order, of which the text
/// contains a marker.
pub open spec fn classify_spec(s: Seq<char>) -> CapabilityKind {
    if seq_contains(s, "Bool"@) {
        CapabilityKind::Bool
    } else if seq_contains(s, "List"@) || seq_contains(s, "Array"@) {
        CapabilityKind::List
    } else if seq_contains(s, "Callable"@) || seq_contains(s, "TyFn"@) {
        CapabilityKind::Callable
    } else if seq_contains(s, "LookupKey"@) || seq_contains(s, "Get"@) {
        CapabilityKind::LookupKey
    } else if seq_contains(s, "Add"@) {
        CapabilityKind::SupportsAdd
    } else if seq_contains(s, "Cmp"@) || seq_contains(s, "Compare"@) || seq_contains(s, "Eq"@) {
        CapabilityKind::SupportsCompare
    } else {
        CapabilityKind::Unknown
    }
}

/// A bound's capability follows its markers by precedence: `Bool` first; then `List` or
/// `Array`; then `Callable` or `TyFn`; then `LookupKey` or `Get`; then `Add`; then `Cmp`,
/// `Compare` or `Eq`; a text with none of them is unknown.
pub proof fn capabilities_follow_marker_precedence(s: Seq<char>)
    ensures
        seq_contains(s, "Bool"@) ==> classify_spec(s) == CapabilityKind::Bool,
        !seq_contains(s, "Bool"@) && (seq_contains(s, "List"@) || seq_contains(s, "Array"@)) ==> classify_spec(s)
            == CapabilityKind::List,
        !seq_contains(s, "Bool"@) && !(seq_contains(s, "List"@) || seq_contains(s, "Array"@)) && (seq_contains(
            s,
            "Callable"@,
        ) || seq_contains(s, "TyFn"@)) ==> classify_spec(s) == CapabilityKind::Callable,
        !seq_contains(s, "Bool"@) && !(seq_contains(s, "List"@) || seq_contains(s, "Array"@)) && !(seq_contains(
            s,
            "Callable"@,
        ) || seq_contains(s, "TyFn"@)) && (seq_contains(s, "LookupKey"@) || seq_contains(s, "Get"@)) ==> classify_spec(s)
            == CapabilityKind::LookupKey,
        !seq_contains(s, "Bool"@) && !(seq_contains(s, "List"@) || seq_contains(s, "Array"@)) && !(seq_contains(
            s,
            "Callable"@,
        ) || seq_contains(s, "TyFn"@)) && !(seq_contains(s, "LookupKey"@) || seq_contains(s, "Get"@)) && seq_contains(
            s,
            "Add"@,
        ) ==> classify_spec(s) == CapabilityKind::SupportsAdd,
        !seq_contains(s, "Bool"@) && !(seq_contains(s, "List"@) || seq_contains(s, "Array"@)) && !(seq_contains(
            s,
            "Callable"@,
        ) || seq_contains(s, "TyFn"@)) && !(seq_contains(s, "LookupKey"@) || seq_contains(s, "Get"@)) && !seq_contains(
            s,
            "Add"@,
        ) && (seq_contains(s, "Cmp"@) || seq_contains(s, "Compare"@) || seq_contains(s, "Eq"@)) ==> classify_spec(s)
            == CapabilityKind::SupportsCompare,
        classify_spec(s) == CapabilityKind::Unknown <==> !(seq_contains(s, "Bool"@) || seq_contains(s, "List"@)
            || seq_contains(s, "Array"@) || seq_contains(s, "Callable"@) || seq_contains(s, "TyFn"@) || seq_contains(
            s,
            "LookupKey"@,
        ) || seq_contains(s, "Get"@) || seq_contains(s, "Add"@) || seq_contains(s, "Cmp"@) || seq_contains(s, "Compare"@)
            || seq_contains(s, "Eq"@)),
{
}

/// The canonical name of a known capability; the trimmed text itself otherwise.
pub open spec fn normalize_spec(input: Seq<char>) -> Seq<char> {
    let compact = trim_char(trim(input), '`');
    match classify_spec(compact) {
        CapabilityKind::Bool => "Bool"@,
        CapabilityKind::List => "List"@,
        CapabilityKind::Callable => "Callable"@,
        CapabilityKind::LookupKey => "LookupKey"@,
        CapabilityKind::SupportsAdd => "SupportsAdd"@,
        CapabilityKind::SupportsCompare => "SupportsCompare"@,
        CapabilityKind::Unknown => compact,
    }
}

pub fn classify_capability(input: &str) -> (k: CapabilityKind)
    ensures
        k == classify_spec(input@),
{
    if str_contains(input, "Bool") {
        CapabilityKind::Bool
    } else if str_contains(input, "List") || str_contains(input, "Array") {
        CapabilityKind::List
    } else if str_contains(input, "Callable") || str_contains(input, "TyFn") {
        CapabilityKind::Callable
    } else if str_contains(input, "LookupKey") || str_contains(input, "Get") {
        CapabilityKind::LookupKey
    } else if str_contains(input, "Add") {
        CapabilityKind::SupportsAdd
    } else if str_contains(input, "Cmp") || str_contains(input, "Compare") || str_contains(input, "Eq") {
        CapabilityKind::SupportsCompare
    } else {
        CapabilityKind::Unknown
    }
}

pub fn normalize_capability_name(input: &str) -> (r: String)
    ensures
        r@ == normalize_spec(input@),
{
    let trimmed = trim_str(input);
    let compact = trim_char_str(trimmed.as_str(), '`');
    match classify_capability(compact.as_str()) {
        CapabilityKind::Bool => copy_str("Bool"),
        CapabilityKind::List => copy_str("List"),
        CapabilityKind::Callable => copy_str("Callable"),
        CapabilityKind::LookupKey => copy_str("LookupKey"),
        CapabilityKind::SupportsAdd => copy_str("SupportsAdd"),
        CapabilityKind::SupportsCompare => copy_str("SupportsCompare"),
        CapabilityKind::Unknown => compact,
    }
}

} // verus!
