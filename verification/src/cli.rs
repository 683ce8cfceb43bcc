//! The command-line settings an instance runs with.
//!
//! Parsing the process's arguments happens outside this crate; the parsed
//! values arrive here as plain data.

use vstd::prelude::*;

verus! {

/// The settings of one running instance.
pub struct CliArgs {
    /// Path to the content folder.
    pub content_path: String,
    /// Binding address.
    pub address: String,
    /// Binding port.
    pub port: u16,
}

} // verus!
