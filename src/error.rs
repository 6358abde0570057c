use vstd::prelude::*;

verus! {

/// Everything that can stop a run, or reject its configuration.
#[derive(Debug)]
pub enum XcapeError {
    /// A command-line argument could not be read.
    InvalidArg(String),
    /// A `-e` expression is not of the form `code=code|code|...`.
    InvalidExpressionArg { map: String, reason: String },
    /// The display cannot be used: no connection, or an extension is missing.
    XConnectionInitError(String),
    /// An event record of a known kind is shorter than its fixed layout.
    MalformedEventRecord { tag: u8, available: usize },
}

} // verus!
