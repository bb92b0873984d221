//! Recursive deletion with a live progress count, built around one idea: a
//! read-only snapshot of the target is taken first, its entries are counted,
//! and a contents-first (post-order) removal plan is laid out and proved to
//! visit every entry exactly once, children strictly before their directory.
//! A deletion run then walks that plan one entry at a time: each successful
//! removal advances the progress count by exactly one, and the first failure
//! halts the run for good. The filesystem work itself — taking the snapshot
//! and removing each entry — stays with the caller, which reports every
//! outcome back to the run.

pub mod cli;
pub mod color;
pub mod plan;
pub mod run;
pub mod snapshot;
pub mod tree;
