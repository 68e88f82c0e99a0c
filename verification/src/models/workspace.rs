//! The root workspace declaration: the glob patterns naming the member
//! package directories.

use vstd::prelude::*;

verus! {

/// The repo-root workspace file: a list of glob patterns, each resolving to
/// member package directories.
pub struct Workspace {
    pub packages: Vec<String>,
}

} // verus!
