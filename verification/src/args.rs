//! The command surface of the tool: one of three operations, each working
//! independently on the record store. Argument parsing itself happens
//! outside the library; these are the plain values it hands over.

use vstd::prelude::*;

verus! {

/// The operation a single invocation performs.
pub enum Commands {
    /// Add one URL, with an optional tag.
    Add { url: String, tag: Option<String> },
    /// List every stored record.
    List,
    /// Check every stored URL for reachability.
    Check,
}

/// The parsed command line: exactly one command per invocation.
pub struct MainSubcommands {
    pub command: Commands,
}

} // verus!
