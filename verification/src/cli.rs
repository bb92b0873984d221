//! What the caller hands the library: the target path and the display
//! options, as plain values. Reading them off a command line stays with the
//! caller.

use vstd::prelude::*;

verus! {

/// The target and the display options of one deletion.
pub struct Args {
    /// Path of the file, directory tree or symlink to delete.
    pub path: String,
    /// Color of the progress bar; empty means one is drawn at random.
    pub color: String,
    /// Whether to print one line per entry processed.
    pub verbose: bool,
    /// Whether the progress line names the entry currently being removed.
    pub show_current: bool,
}

} // verus!
