//! The errors of the tooling.
use vstd::prelude::*;

use crate::text::{copy_str, push_str};

verus! {

/// An error of the tooling, with its message. An I/O error is held by its message.
#[derive(Debug, Clone, PartialEq, Eq)]
pub enum ToolingError {
    Io(String),
    Json(String),
    Parse(String),
    Command(String),
    Unsupported(String),
}

/// The text an error is shown as: its kind, then its message.
pub open spec fn error_text(e: ToolingError) -> Seq<char> {
    match e {
        ToolingError::Io(m) => "io error: "@ + m@,
        ToolingError::Json(m) => "json error: "@ + m@,
        ToolingError::Parse(m) => "parse error: "@ + m@,
        ToolingError::Command(m) => "command error: "@ + m@,
        ToolingError::Unsupported(m) => "unsupported: "@ + m@,
    }
}

impl ToolingError {
    /// The text this error is shown as.
    pub fn message(&self) -> (r: String)
        ensures
            r@ == error_text(*self),
    {
        let (prefix, m) = match self {
            ToolingError::Io(m) => ("io error: ", m),
            ToolingError::Json(m) => ("json error: ", m),
            ToolingError::Parse(m) => ("parse error: ", m),
            ToolingError::Command(m) => ("command error: ", m),
            ToolingError::Unsupported(m) => ("unsupported: ", m),
        };
        let mut r = copy_str(prefix);
        push_str(&mut r, m.as_str());
        r
    }
}

/// An error of an analysis run inside the compiler, held by its message.
#[derive(Debug, Clone, PartialEq, Eq)]
pub struct AnalysisError {
    message: String,
}

impl AnalysisError {
    /// The message this error carries.
    pub closed spec fn text(self) -> Seq<char> {
        self.message@
    }

    pub fn new(message: String) -> (r: Self)
        ensures
            r.text() == message@,
    {
        AnalysisError { message }
    }

    /// The text this error is shown as: its message.
    pub fn message(&self) -> (r: &String)
        ensures
            r@ == self.text(),
    {
        &self.message
    }
}

} // verus!
