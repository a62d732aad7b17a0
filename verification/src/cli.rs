//! The command line, as plain values.
use vstd::prelude::*;

use crate::baseline::BaselineKind;

verus! {

/// The parsed command line.
#[derive(Debug)]
pub struct Cli {
    pub command: Commands,
}

/// The subcommands.
#[derive(Debug)]
pub enum Commands {
    Scan(ScanArgs),
}

/// Options of the `scan` subcommand.
#[derive(Debug)]
pub struct ScanArgs {
    pub baseline: BaselineKind,
    pub baseline_dir: Option<String>,
    /// Extra paths to scan.
    pub include_paths: Vec<String>,
    /// Extra paths to leave out.
    pub exclude_paths: Vec<String>,
    pub no_defaults: bool,
    pub report_path: Option<String>,
    pub no_report: bool,
    pub diff: bool,
    pub json: bool,
    pub max_items: usize,
    pub no_color: bool,
}

} // verus!
