use vstd::prelude::*;

verus! {

/// The failures of the configuration and resolution pipeline.
#[derive(Debug, PartialEq, Eq)]
pub enum Error {
    /// Command-line values that no backend recognized, in the order given.
    UnrecognizableConnections(Vec<String>),
    /// After merging, no backend section holds a single record.
    NoSources,
}

} // verus!
