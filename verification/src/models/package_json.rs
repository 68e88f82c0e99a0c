//! The shape of a package manifest as the scanner consumes it: a package
//! name and three dependency tables, each a list of name/version pairs.

use vstd::prelude::*;

verus! {

/// One dependency table: pairs of dependency name and raw version token,
/// in manifest order.
pub struct Dependencies(pub Vec<(String, String)>);

impl Dependencies {
    /// The entries as pairs of character sequences.
    pub open spec fn view(&self) -> Seq<(Seq<char>, Seq<char>)> {
        Seq::new(self.0.len() as nat, |i: int| (self.0[i].0@, self.0[i].1@))
    }

    /// An empty dependency table.
    pub fn empty() -> (d: Self)
        ensures
            d@ == Seq::<(Seq<char>, Seq<char>)>::empty(),
    {
        let d = Dependencies(Vec::new());
        proof {
            assert(d@ =~= Seq::<(Seq<char>, Seq<char>)>::empty());
        }
        d
    }

    pub fn len(&self) -> (n: usize)
        ensures
            n == self@.len(),
    {
        self.0.len()
    }

    pub fn is_empty(&self) -> (r: bool)
        ensures
            r == (self@.len() == 0),
    {
        self.0.is_empty()
    }
}

impl Default for Dependencies {
    fn default() -> (d: Self)
        ensures
            d@ == Seq::<(Seq<char>, Seq<char>)>::empty(),
    {
        Dependencies::empty()
    }
}

/// A package manifest: the package's name, its optional workspace globs,
/// and its production, development and peer dependency tables.
pub struct PackageJson {
    pub name: String,
    pub workspaces: Option<Vec<String>>,
    pub dependencies: Dependencies,
    pub dev_dependencies: Dependencies,
    pub peer_dependencies: Dependencies,
}

impl PackageJson {
    /// Whether the manifest's workspace glob list is empty. The manifest
    /// must declare one for the question to make sense.
    pub fn has_workspaces(self) -> (r: bool)
        requires
            self.workspaces is Some,
        ensures
            r == (self.workspaces->Some_0.len() == 0),
    {
        match self.workspaces {
            Some(w) => w.is_empty(),
            None => false,
        }
    }
}

/// The dedicated workspace declaration file some repositories use in place
/// of a glob list in the root manifest.
pub struct PnpmWorkspace {
    pub packages: Vec<String>,
}

} // verus!
