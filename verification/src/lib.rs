//! Extraction of a bounded, filtered dataset of (commit message, commit
//! changes) pairs from the history of a local repository.
//!
//! The crate holds the decision logic of the extraction run: which commits
//! are accepted, what text is extracted from their diffs, how the run
//! deduplicates and stops, and how the resulting rows are rendered as a
//! delimited file. Reading the repository and writing the output file are
//! left to the caller, which hands plain values in and takes plain values
//! back.

use vstd::prelude::*;

pub mod config;
pub mod diff;
pub mod message;
pub mod pipeline;
pub mod text;
pub mod traversal;
pub mod writer;

verus! {

/// One accepted commit: its subject line and the extracted diff text.
#[derive(Clone)]
pub struct Record {
    /// The subject (first line) of the commit message.
    pub commit_message: String,
    /// The concatenated diff lines of the commit, each prefixed with its
    /// origin marker.
    pub commit_changes: String,
}

} // verus!
