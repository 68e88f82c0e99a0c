//! The shape of a Cargo manifest as the scanner reads it.

use vstd::prelude::*;

verus! {

/// The `[package]` table of a Cargo manifest.
pub struct Package {
    pub name: String,
    pub version: String,
    pub authors: Option<Vec<String>>,
    pub edition: Option<String>,
    pub license: Option<String>,
}

/// A Cargo manifest: its package table, its dependency name lists, and the
/// workspace members it declares.
pub struct CargoToml {
    pub package: Option<Package>,
    pub dependencies: Option<Vec<String>>,
    pub dev_dependencies: Option<Vec<String>>,
    pub members: Option<Vec<String>>,
}

} // verus!
