//! Configuration drift tracking for image-based systems: the verified core.
//!
//! A scan of a file tree becomes a [`scanner::Snapshot`], a map from
//! normalized paths to file metadata; two snapshots are compared by
//! [`diff::compute_diff`], and the differences are summarized by
//! [`report::build_report`].
use vstd::prelude::*;

pub mod baseline;
pub mod cli;
pub mod config;
pub mod diff;
pub mod order;
pub mod output;
pub mod path;
pub mod report;
pub mod scanner;
pub mod snapshot;
pub mod text;
