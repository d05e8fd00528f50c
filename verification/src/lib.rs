//! Strips marker-delimited comment content from source text.

pub mod error;
pub mod filter;
pub mod kept;
pub mod ordering;
pub mod pattern;
pub mod region;
pub mod rerun;
pub mod scan;
pub mod state;
pub mod text;
