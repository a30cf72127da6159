//! Structure-aware semantic diff: symbol matching, change classification,
//! cross-file move detection and repository-wide impact analysis.
use vstd::prelude::*;

pub mod ast;
pub mod cli;
pub mod diff;
pub mod git;
pub mod index;
pub mod llm;
pub mod output;
pub mod rank;
pub mod repo;
pub mod ratio;
pub mod text;
pub mod tui;

verus! {

} // verus!
