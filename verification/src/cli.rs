//! The run's configuration, built once at startup and passed explicitly
//! into every component that needs it.

use vstd::prelude::*;

verus! {

/// The options of one run. The command line layer fills this in and the
/// planner reads it; only the single-chapter handling mode changes what
/// is planned — the dry-run and auto-confirm flags change only what the
/// caller does with the plan.
#[derive(Debug)]
pub struct CliArgs {
    /// Directory to parse video files from.
    pub input: Option<String>,
    /// Directory to output video files to.
    pub output: Option<String>,
    /// Plan and report only; write no files.
    pub dry_run: bool,
    /// Skip the confirmation prompt.
    pub auto_confirm_yes: bool,
    /// Copy single-chapter videos into place instead of renaming them.
    pub copy_single_chapter_instead_of_renaming: bool,
}

} // verus!
