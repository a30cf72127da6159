//! Plain-text reports of a diff and of a repository analysis.
pub mod text;
