//! The package managers the repository may be driven by. The structs name
//! them; invoking one is process work that lives with the caller.

use vstd::prelude::*;

verus! {

/// The pnpm package manager.
pub struct PNPM {}

/// The npm package manager.
pub struct NPM {}

/// The yarn package manager.
pub struct Yarn {}

} // verus!
