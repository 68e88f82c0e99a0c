//! Scans a monorepo's package manifests and aggregates, per external
//! dependency, which workspace packages request it and at which versions,
//! surfacing version drift across the repository.

pub mod aggregate;
pub mod models;
pub mod package_manager;
pub mod report;
pub mod search;
pub mod text;

use vstd::prelude::*;

verus! {

/// The scan configuration: which dependency edges count, which dependency
/// kinds are enumerated, the reporting threshold, and presentation switches.
pub struct Args {
    /// Dependency names never counted.
    pub ignore: Option<Vec<String>>,
    /// Pattern a dependency name must match to count.
    pub matches: Option<String>,
    /// Minimum number of consuming packages for a report row.
    pub min: usize,
    /// Consumer names never counted.
    pub ignore_workspace: Vec<String>,
    /// Whether workspace self-references (and the root manifest) count.
    pub include_root: bool,
    /// Pattern a consumer name must match to count.
    pub match_workspace: Option<String>,
    /// Key search rows by `name@version` instead of bare name.
    pub deep: bool,
    pub json: bool,
    pub yaml: bool,
    pub no_color: bool,
    /// Scan development dependencies.
    pub dev: bool,
    /// Scan peer dependencies.
    pub peer: bool,
    /// Scan production dependencies even when another kind flag is set.
    pub prod: bool,
    /// Also scan the repo-root manifest in the aggregation pass.
    pub check_workspace: bool,
}

impl Args {
    /// The dependency names the configuration ignores.
    pub open spec fn spec_ignored_deps(&self) -> Seq<Seq<char>> {
        match self.ignore {
            Some(v) => v.deep_view(),
            None => Seq::empty(),
        }
    }

    /// The consumer names the configuration ignores.
    pub open spec fn spec_ignored_workspaces(&self) -> Seq<Seq<char>> {
        self.ignore_workspace.deep_view()
    }
}

} // verus!
