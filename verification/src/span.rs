//! Source spans that trace values point back to.
use vstd::prelude::*;

use crate::ids::SpanId;

verus! {

/// Where a span's source comes from.
#[derive(Debug, Clone, PartialEq, Eq)]
pub struct SourceOrigin {
    pub crate_name: Option<String>,
    pub module: Option<String>,
    pub file: Option<String>,
}

/// A line and column in a source file.
#[derive(Debug, Clone, Copy, PartialEq, Eq, Structural)]
pub struct SourceLocation {
    pub line: u32,
    pub column: u32,
}

/// A span of source text.
#[derive(Debug, Clone, PartialEq, Eq)]
pub struct SourceSpan {
    pub id: SpanId,
    pub origin: SourceOrigin,
    pub start: Option<SourceLocation>,
    pub end: Option<SourceLocation>,
    pub label: Option<String>,
    pub raw: Option<String>,
}

impl SourceSpan {
    /// A span with the given identifier and nothing else known.
    pub fn new(id: SpanId) -> (s: Self)
        ensures
            s.id == id,
            s.origin.crate_name is None,
            s.origin.module is None,
            s.origin.file is None,
            s.start is None,
            s.end is None,
            s.label is None,
            s.raw is None,
    {
        SourceSpan {
            id,
            origin: SourceOrigin { crate_name: None, module: None, file: None },
            start: None,
            end: None,
            label: None,
            raw: None,
        }
    }
}

} // verus!
