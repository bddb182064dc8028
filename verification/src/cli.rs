//! Command-line options.

use vstd::prelude::*;

verus! {

/// The options the program accepts.
#[derive(Debug)]
pub struct Args {
    /// Log level; overrides the configured one.
    pub log_level: Option<String>,
    /// Whether to save the log to a file; overrides the configured choice.
    pub save_log_file: Option<bool>,
}

} // verus!
