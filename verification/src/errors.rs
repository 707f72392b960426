//! The error kinds a pipeline can fail with. The payload carries the
//! offending item; callers render messages from it.

use vstd::prelude::*;

verus! {

/// Why a line could not be run, or why one of its stages failed.
#[derive(Debug, Clone, PartialEq, Eq)]
pub enum ShellError {
    /// Malformed redirection syntax: an operator without a filename after
    /// it, or a stage with no program left once the operators are taken
    /// out.
    Parse,
    /// A built-in was called without its required argument.
    Usage { builtin: String },
    /// A wildcard pattern that does not compile.
    Glob { pattern: String },
    /// A program that could not be found or started.
    Lookup { program: String },
    /// A file or directory operation that the system refused.
    Io { detail: String },
}

} // verus!
