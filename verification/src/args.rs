//! The command surface: which catalog file to work on, how many worker
//! threads to use, and which operation to run.  Argument parsing itself is
//! left to the front end; these are the plain values it hands over.

use vstd::prelude::*;

use crate::model::Verbosity;

verus! {

/// One invocation's choices.
pub struct Cli {
    /// Path of the catalog file.
    pub db: String,
    /// Worker threads for the per-file phase; 0 leaves the default.
    pub threads: usize,
    pub verbose: Verbosity,
    pub cmd: Commands,
}

/// The operation to run.
pub enum Commands {
    /// Scan a directory tree for e-book files and fold them in.
    Load { root: String, follow_symlinks: bool, no_hash: bool },
    /// Re-validate every live record against the filesystem.
    Check,
    /// Remove stale records.
    Prune,
    /// Absorb another catalog file.
    Merge { other: String },
    /// Fill in absent content hashes, or recompute all of them.
    Rehash { force: bool },
    /// Report the number of records.
    Count,
    /// Serve the catalog (not implemented).
    Serve { backend: Option<String> },
    /// Interactive queries (not implemented).
    Query,
    /// Archive the indexed files (not implemented).
    Stow,
}

} // verus!
