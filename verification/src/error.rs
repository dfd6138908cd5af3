//! The fatal build errors.
//!
//! Every failure during collection or synthesis aborts the whole build:
//! there is no partial route table and no degraded mode. The variants keep
//! the four failure conditions apart, so that a missing entry document (a
//! structurally invalid input tree) is distinguishable from an I/O fault.

use vstd::prelude::*;

verus! {

/// A fatal build error. No route table is produced when one arises.
#[derive(Clone, Copy, Debug, PartialEq, Eq, Structural)]
pub enum BuildError {
    /// The directory walk itself failed, or handed back an entry that does
    /// not lie under the scanned root.
    Traversal,
    /// A regular file's contents could not be read.
    UnreadableFile,
    /// A path component could not be represented as text.
    InvalidPathText,
    /// No asset maps to the route `/index.html`.
    MissingEntryDocument,
}

impl BuildError {
    /// A descriptive message identifying which condition triggered the failure.
    pub fn describe(&self) -> (m: String)
        ensures
            self is Traversal ==> m@ == "failed to walk the asset directory"@,
            self is UnreadableFile ==> m@ == "failed to read an asset file"@,
            self is InvalidPathText ==> m@ == "asset path is not representable as text"@,
            self is MissingEntryDocument ==> m@ == "no asset maps to the route /index.html"@,
    {
        match self {
            BuildError::Traversal => String::from_str("failed to walk the asset directory"),
            BuildError::UnreadableFile => String::from_str("failed to read an asset file"),
            BuildError::InvalidPathText => String::from_str(
                "asset path is not representable as text",
            ),
            BuildError::MissingEntryDocument => String::from_str(
                "no asset maps to the route /index.html",
            ),
        }
    }
}

} // verus!
