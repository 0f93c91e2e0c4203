use vstd::prelude::*;

pub mod cargo_profile;
pub mod caps;
pub mod chrome;
pub mod cli_args;
pub mod definition;
pub mod definition_order;
pub mod definition_solve;
pub mod error;
pub mod expr;
pub mod expr_laws;
pub mod graph;
pub mod ids;
pub mod lowering;
pub mod mapper;
pub mod metrics;
pub mod mir_artifacts;
pub mod naming;
pub mod pattern_match;
pub mod projection_text;
pub mod profile;
pub mod query;
pub mod rank;
pub mod reach;
pub mod render;
pub mod semantic;
pub mod solve;
pub mod solve_filter;
pub mod solve_provenance;
pub mod solve_render;
pub mod span;
pub mod text;
pub mod trace;
pub mod trace_text;
pub mod strmap;
pub mod summarize;
pub mod summary_text;
pub mod tally;

verus! {
} // verus!
