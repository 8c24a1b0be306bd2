//! Run configuration: the input file path and the failure policy.
//!
//! Command-line parsing itself is an I/O concern and lives outside the
//! library; the values it yields are carried by `Arguments`.

use vstd::prelude::*;

verus! {

/// The two run-wide settings of a batch: where the input records come from
/// and whether per-record failures are skipped or fail the whole run.
pub struct Arguments {
    /// Path to the file containing the addresses to check.
    pub file_path: String,
    /// Skip per-record errors instead of failing the whole batch on the
    /// first one.
    pub skip_error_check: bool,
}

impl Arguments {
    /// Packages the two settings handed over by the caller's argument parser.
    pub fn new(file_path: String, skip_error_check: bool) -> (r: Self)
        ensures
            r.file_path == file_path,
            r.skip_error_check == skip_error_check,
    {
        Arguments { file_path, skip_error_check }
    }
}

} // verus!
