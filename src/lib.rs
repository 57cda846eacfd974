//! Picks the one changed file of a working tree whose path best matches a
//! list of query tokens, and the small pieces of git plumbing around it.

pub mod text;
pub mod glob;
pub mod fuzzy;
pub mod rank;
pub mod git;
