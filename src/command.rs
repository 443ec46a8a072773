//! The operations a user can ask for.
use vstd::prelude::*;

verus! {

/// One invocation: the operation to run.
pub struct Command {
    /// What operation to execute.
    pub operation: Operation,
}

/// An operation and its arguments. Directory paths end in `/`.
pub enum Operation {
    /// List a directory tree, from `path` or the root.
    Ls { path: Option<String> },
    /// Upload the local file `source` to `destination`.
    Upload { source: String, destination: String },
    /// Download the file `source` to the local path `destination`.
    Download { source: String, destination: String },
    /// Delete `path`; `quick` keeps the blocks, `recursive` is for directories.
    Rm { quick: bool, recursive: bool, path: String },
    /// Move `source` into the directory `destination`.
    Mv { source: String, destination: String },
    /// Give the entry `old` the name `new`.
    Rename { old: String, new: String },
    /// Create the directory `path`.
    Mkdir { path: String },
}

} // verus!
