//! Core of a filter-list pipeline: remote block lists are downloaded,
//! reduced to the tokens their regular expression captures, merged into one
//! sorted list per tag and rendered in an output format.
//!
//! This crate holds the rules of that pipeline as verified functions on plain
//! values. Reading and writing files and sockets is left to the caller, who
//! hands over what was read and writes what comes back.

pub mod cache;
pub mod config;
pub mod filter_controller;
pub mod filter_list;
pub mod input;
pub mod io;
pub mod log_level;
pub mod output;
pub mod stages;
pub mod text;
