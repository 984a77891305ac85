//! The four stages of a run.

pub mod categorize;
pub mod coherence;
pub mod download;
pub mod extract;
pub mod output;
