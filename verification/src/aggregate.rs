//! The aggregation engine: the filter predicate deciding which dependency
//! edges count, the per-dependency record of versions and consumers, and the
//! map that folds a stream of (name, version, consumer) triples into a
//! cross-package view keyed by dependency name.

use vstd::prelude::*;

use crate::models::package_json::{Dependencies, PackageJson};
use crate::models::semantic_version::{normalize, spec_normalize};
use crate::text::{pattern_matches, spec_pattern_matches, str_eq};
use crate::Args;

verus! {

// --- membership helper ---

/// Whether `s` occurs in `v`.
pub fn contains_string(v: &Vec<String>, s: &String) -> (r: bool)
    ensures
        r == v.deep_view().contains(s@),
{
    let mut i: usize = 0;
    while i < v.len()
        invariant
            0 <= i <= v.len(),
            forall|j: int| 0 <= j < i ==> v.deep_view()[j] != s@,
        decreases v.len() - i,
    {
        if str_eq(v[i].as_str(), s.as_str()) {
            proof {
                assert(v.deep_view()[i as int] == s@);
            }
            return true;
        }
        i += 1;
    }
    proof {
        assert(forall|j: int| 0 <= j < v.deep_view().len() ==> v.deep_view()[j] != s@);
    }
    false
}

// --- the filter predicate ---

/// Whether the edge (dependency `name` at `raw_version`, consumed by `ws`)
/// counts under `args`. The rules apply in order and the first failing one
/// rejects: a workspace reference is dropped unless root references are
/// included; then ignored dependency names, ignored consumer names, a
/// consumer pattern that fails to match, and a dependency pattern that fails
/// to match each reject.
pub open spec fn spec_accept(
    args: Args,
    name: Seq<char>,
    raw_version: Seq<char>,
    ws: Seq<char>,
) -> bool {
    &&& !(spec_normalize(raw_version) == "workspace"@ && !args.include_root)
    &&& !args.spec_ignored_deps().contains(name)
    &&& !args.spec_ignored_workspaces().contains(ws)
    &&& match args.match_workspace {
        Some(p) => spec_pattern_matches(p@, ws),
        None => true,
    }
    &&& match args.matches {
        Some(p) => spec_pattern_matches(p@, name),
        None => true,
    }
}

/// Decides [`spec_accept`] for one dependency edge.
pub fn accept(
    package_name: &String,
    package_version: &String,
    workspace: &String,
    args: &Args,
) -> (r: bool)
    ensures
        r == spec_accept(*args, package_name@, package_version@, workspace@),
{
    let version = normalize(package_version.as_str());
    if str_eq(version.as_str(), "workspace") && !args.include_root {
        return false;
    }
    match &args.ignore {
        Some(ignored) => {
            if contains_string(ignored, package_name) {
                return false;
            }
        },
        None => {},
    }
    if contains_string(&args.ignore_workspace, workspace) {
        return false;
    }
    match &args.match_workspace {
        Some(p) => {
            if !pattern_matches(p.as_str(), workspace.as_str()) {
                return false;
            }
        },
        None => {},
    }
    match &args.matches {
        Some(p) => {
            if !pattern_matches(p.as_str(), package_name.as_str()) {
                return false;
            }
        },
        None => {},
    }
    true
}

// --- the aggregated record ---

/// Aggregated state for one dependency name: the normalized versions seen
/// and the consumers that request it, each list free of duplicates.
#[derive(Clone, Debug)]
pub struct Dependency {
    pub versions: Vec<String>,
    pub workspaces: Vec<String>,
}

impl Default for Dependency {
    /// The record before any sighting: both sets empty.
    fn default() -> (d: Self)
        ensures
            d.wf(),
            d.versions_set() == Set::<Seq<char>>::empty(),
            d.workspaces_set() == Set::<Seq<char>>::empty(),
    {
        Dependency::empty()
    }
}

impl Dependency {
    /// The set of normalized version strings seen.
    pub open spec fn versions_set(&self) -> Set<Seq<char>> {
        self.versions.deep_view().to_set()
    }

    /// The set of consumers seen.
    pub open spec fn workspaces_set(&self) -> Set<Seq<char>> {
        self.workspaces.deep_view().to_set()
    }

    /// Both lists are deduplicated.
    pub open spec fn wf(&self) -> bool {
        self.versions.deep_view().no_duplicates() && self.workspaces.deep_view().no_duplicates()
    }

    /// An empty record, as created on the first sighting of a name.
    pub fn empty() -> (d: Self)
        ensures
            d.wf(),
            d.versions_set() == Set::<Seq<char>>::empty(),
            d.workspaces_set() == Set::<Seq<char>>::empty(),
    {
        let d = Dependency { versions: Vec::new(), workspaces: Vec::new() };
        proof {
            assert(d.versions_set() =~= Set::<Seq<char>>::empty());
            assert(d.workspaces_set() =~= Set::<Seq<char>>::empty());
        }
        d
    }

    /// The number of distinct consumers.
    pub fn len(&self) -> (n: usize)
        ensures
            n == self.workspaces.deep_view().len(),
            self.wf() ==> n == self.workspaces_set().len(),
    {
        proof {
            if self.wf() {
                self.workspaces.deep_view().unique_seq_to_set();
            }
        }
        self.workspaces.len()
    }

    /// Whether no consumer has been recorded; such a record counts as absent.
    pub fn is_empty(&self) -> (r: bool)
        ensures
            r == (self.workspaces.deep_view().len() == 0),
            self.wf() ==> r == (self.workspaces_set() == Set::<Seq<char>>::empty()),
    {
        proof {
            if self.wf() {
                if self.workspaces.deep_view().len() == 0 {
                    assert(self.workspaces_set() =~= Set::<Seq<char>>::empty());
                } else {
                    assert(self.workspaces_set().contains(self.workspaces.deep_view()[0]));
                }
            }
        }
        self.workspaces.is_empty()
    }

    /// Records a version string, once.
    pub fn insert_version(&mut self, v: String)
        requires
            old(self).wf(),
        ensures
            final(self).wf(),
            final(self).versions_set() == old(self).versions_set().insert(v@),
            final(self).workspaces_set() == old(self).workspaces_set(),
            final(self).workspaces == old(self).workspaces,
    {
        if !contains_string(&self.versions, &v) {
            self.versions.push(v);
            proof {
                assert(self.versions.deep_view() =~= old(self).versions.deep_view().push(v@));
                old(self).versions.deep_view().lemma_push_to_set_commute(v@);
                assert(self.versions_set() =~= old(self).versions_set().insert(v@));
            }
        } else {
            proof {
                assert(self.versions_set() =~= old(self).versions_set().insert(v@));
            }
        }
    }

    /// Records a consumer, once.
    pub fn insert_workspace(&mut self, w: String)
        requires
            old(self).wf(),
        ensures
            final(self).wf(),
            final(self).workspaces_set() == old(self).workspaces_set().insert(w@),
            final(self).versions_set() == old(self).versions_set(),
            final(self).versions == old(self).versions,
    {
        if !contains_string(&self.workspaces, &w) {
            self.workspaces.push(w);
            proof {
                assert(self.workspaces.deep_view() =~= old(self).workspaces.deep_view().push(w@));
                old(self).workspaces.deep_view().lemma_push_to_set_commute(w@);
                assert(self.workspaces_set() =~= old(self).workspaces_set().insert(w@));
            }
        } else {
            proof {
                assert(self.workspaces_set() =~= old(self).workspaces_set().insert(w@));
            }
        }
    }
}

/// Content equality: two records are the same aggregation state exactly when
/// they hold the same version set and the same consumer set, whatever the
/// insertion order was.
impl PartialEq for Dependency {
    fn eq(&self, other: &Self) -> (r: bool) {
        vec_same_elements(&self.versions, &other.versions) && vec_same_elements(
            &self.workspaces,
            &other.workspaces,
        )
    }
}

impl vstd::std_specs::cmp::PartialEqSpecImpl for Dependency {
    open spec fn obeys_eq_spec() -> bool {
        true
    }

    open spec fn eq_spec(&self, other: &Self) -> bool {
        self.versions_set() == other.versions_set() && self.workspaces_set()
            == other.workspaces_set()
    }
}

/// Whether `a` and `b` hold the same elements, duplicates and order aside.
fn vec_same_elements(a: &Vec<String>, b: &Vec<String>) -> (r: bool)
    ensures
        r == (a.deep_view().to_set() == b.deep_view().to_set()),
{
    let forward = vec_contains_all(b, a);
    let backward = vec_contains_all(a, b);
    proof {
        if forward && backward {
            assert(a.deep_view().to_set() =~= b.deep_view().to_set());
        } else if !forward {
            let i = choose|i: int|
                0 <= i < a.deep_view().len() && !b.deep_view().contains(a.deep_view()[i]);
            assert(a.deep_view().to_set().contains(a.deep_view()[i]));
        } else {
            let i = choose|i: int|
                0 <= i < b.deep_view().len() && !a.deep_view().contains(b.deep_view()[i]);
            assert(b.deep_view().to_set().contains(b.deep_view()[i]));
        }
    }
    forward && backward
}

// --- the aggregation map ---

/// The aggregated content of one record: its version set and its consumer
/// set.
pub open spec fn record_view(d: Dependency) -> (Set<Seq<char>>, Set<Seq<char>>) {
    (d.versions_set(), d.workspaces_set())
}

/// Mapping from dependency name to its aggregated record. Built
/// incrementally by the scanning pass, read-only once scanning completes.
pub struct DependencyMap {
    pub entries: Vec<(String, Dependency)>,
}

impl View for DependencyMap {
    type V = Map<Seq<char>, (Set<Seq<char>>, Set<Seq<char>>)>;

    open spec fn view(&self) -> Map<Seq<char>, (Set<Seq<char>>, Set<Seq<char>>)> {
        Map::new(
            |k: Seq<char>| self.names().contains(k),
            |k: Seq<char>| record_view(self.entries@[self.spec_index_of(k)].1),
        )
    }
}

impl DependencyMap {
    /// The dependency names, in first-sighting order.
    pub open spec fn names(&self) -> Seq<Seq<char>> {
        Seq::new(self.entries@.len() as nat, |i: int| self.entries@[i].0@)
    }

    /// The entries as the map holds them.
    pub open spec fn entries_seq(&self) -> Seq<(String, Dependency)> {
        self.entries@
    }

    /// Where a name stands in the entry list.
    pub open spec fn spec_index_of(&self, k: Seq<char>) -> int {
        choose|i: int| 0 <= i < self.entries@.len() && self.entries@[i].0@ == k
    }

    /// Names are unique and every record is deduplicated.
    pub open spec fn wf(&self) -> bool {
        &&& self.names().no_duplicates()
        &&& forall|i: int| 0 <= i < self.entries@.len() ==> (#[trigger] self.entries@[i].1).wf()
    }

    /// A name the map contains stands at the index the view looks up.
    pub proof fn lemma_index_of_valid(&self, k: Seq<char>)
        requires
            self.names().contains(k),
        ensures
            0 <= self.spec_index_of(k) < self.entries_seq().len(),
            self.entries_seq()[self.spec_index_of(k)].0@ == k,
    {
        let i = choose|i: int| 0 <= i < self.names().len() && self.names()[i] == k;
        assert(self.entries_seq()[i].0@ == k);
        let j = self.spec_index_of(k);
        assert(0 <= j < self.entries_seq().len() && self.entries_seq()[j].0@ == k);
    }

    /// In a well-formed map, each entry is the record its name maps to.
    pub proof fn lemma_entry_view(&self, i: int)
        requires
            self.wf(),
            0 <= i < self.entries_seq().len(),
        ensures
            self@.dom().contains(self.entries_seq()[i].0@),
            self@[self.entries_seq()[i].0@] == record_view(self.entries_seq()[i].1),
    {
        let k = self.entries@[i].0@;
        assert(self.names()[i] == k);
        let j = self.spec_index_of(k);
        assert(0 <= j < self.entries@.len() && self.entries@[j].0@ == k);
        assert(self.names()[j] == k);
        assert(i == j);
    }

    /// An empty aggregation map.
    pub fn new() -> (m: Self)
        ensures
            m.wf(),
            m@ == Map::<Seq<char>, (Set<Seq<char>>, Set<Seq<char>>)>::empty(),
            m.entries_seq().len() == 0,
    {
        let m = DependencyMap { entries: Vec::new() };
        proof {
            assert(m@ =~= Map::<Seq<char>, (Set<Seq<char>>, Set<Seq<char>>)>::empty());
        }
        m
    }

    /// How many dependency names have been sighted.
    pub fn len(&self) -> (n: usize)
        ensures
            n == self.entries_seq().len(),
    {
        self.entries.len()
    }

    /// The entry at one position of the sighting order.
    pub fn entry_at(&self, i: usize) -> (e: &(String, Dependency))
        requires
            i < self.entries_seq().len(),
        ensures
            *e == self.entries_seq()[i as int],
    {
        &self.entries[i]
    }

    /// Looks a name up in the entry list.
    fn find(&self, name: &String) -> (r: Option<usize>)
        ensures
            match r {
                Some(i) => i < self.entries_seq().len() && self.entries_seq()[i as int].0@
                    == name@,
                None => !self.names().contains(name@),
            },
    {
        let mut i: usize = 0;
        while i < self.entries.len()
            invariant
                0 <= i <= self.entries@.len(),
                forall|j: int| 0 <= j < i ==> self.entries@[j].0@ != name@,
            decreases self.entries@.len() - i,
        {
            if str_eq(self.entries[i].0.as_str(), name.as_str()) {
                return Some(i);
            }
            i += 1;
        }
        proof {
            assert(forall|j: int|
                0 <= j < self.names().len() ==> self.names()[j] == self.entries@[j].0@);
        }
        None
    }
}

/// The aggregation step for one input triple: a rejected triple changes
/// nothing; an accepted one adds its normalized version and its consumer to
/// the named record, creating the record on first sighting.
pub open spec fn spec_ingest(
    m: Map<Seq<char>, (Set<Seq<char>>, Set<Seq<char>>)>,
    name: Seq<char>,
    raw_version: Seq<char>,
    ws: Seq<char>,
    args: Args,
) -> Map<Seq<char>, (Set<Seq<char>>, Set<Seq<char>>)> {
    if !spec_accept(args, name, raw_version, ws) {
        m
    } else {
        let v = spec_normalize(raw_version);
        let cur = if m.dom().contains(name) {
            m[name]
        } else {
            (Set::<Seq<char>>::empty(), Set::<Seq<char>>::empty())
        };
        m.insert(name, (cur.0.insert(v), cur.1.insert(ws)))
    }
}

/// Folds one (dependency, version, consumer) triple into the map, as
/// [`spec_ingest`] describes.
pub fn add_to_dependency_map(
    map: &mut DependencyMap,
    package_name: &String,
    package_version: &String,
    workspace: &String,
    args: &Args,
)
    requires
        old(map).wf(),
    ensures
        final(map).wf(),
        final(map)@ == spec_ingest(
            old(map)@,
            package_name@,
            package_version@,
            workspace@,
            *args,
        ),
{
    if !accept(package_name, package_version, workspace, args) {
        return;
    }
    let version = normalize(package_version.as_str());
    match map.find(package_name) {
        Some(i) => {
            proof {
                old(map).lemma_entry_view(i as int);
            }
            map.entries[i].1.insert_workspace(workspace.clone());
            map.entries[i].1.insert_version(version);
            proof {
                let result = spec_ingest(
                    old(map)@,
                    package_name@,
                    package_version@,
                    workspace@,
                    *args,
                );
                assert(map.names() =~= old(map).names());
                assert(map.wf());
                map.lemma_entry_view(i as int);
                assert forall|k: Seq<char>| map@.dom().contains(k) implies result.dom().contains(
                    k,
                ) && map@[k] == result[k] by {
                    map.lemma_index_of_valid(k);
                    old(map).lemma_index_of_valid(k);
                    let j = map.spec_index_of(k);
                    if k == package_name@ {
                        assert(map.names()[j] == k);
                        assert(map.names()[i as int] == k);
                        assert(j == i);
                    } else {
                        assert(j != i);
                        assert(map.entries@[j] == old(map).entries@[j]);
                        old(map).lemma_entry_view(j);
                        let j2 = old(map).spec_index_of(k);
                        assert(old(map).names()[j2] == k);
                        assert(old(map).names()[j] == k);
                        assert(j2 == j);
                    }
                }
                assert forall|k: Seq<char>| result.dom().contains(k) implies map@.dom().contains(
                    k,
                ) by {
                    assert(old(map).names().contains(package_name@));
                }
                assert(map@ =~= result);
            }
        },
        None => {
            let mut d = Dependency::empty();
            d.insert_workspace(workspace.clone());
            d.insert_version(version);
            let ghost dd = d;
            map.entries.push((package_name.clone(), d));
            proof {
                let n = old(map).entries@.len() as int;
                assert(map.entries@ =~= old(map).entries@.push((*package_name, dd)));
                assert(map.names() =~= old(map).names().push(package_name@));
                assert(map.names().no_duplicates()) by {
                    assert(forall|j: int|
                        0 <= j < n ==> map.names()[j] == old(map).names()[j]);
                    assert(forall|j: int|
                        0 <= j < n ==> old(map).names()[j] != package_name@);
                }
                assert(map.wf());
                map.lemma_entry_view(n);
                let result = spec_ingest(
                    old(map)@,
                    package_name@,
                    package_version@,
                    workspace@,
                    *args,
                );
                assert forall|k: Seq<char>| map@.dom().contains(k) implies result.dom().contains(
                    k,
                ) && map@[k] == result[k] by {
                    map.lemma_index_of_valid(k);
                    let j = map.spec_index_of(k);
                    if k == package_name@ {
                        assert(map.names()[j] == k);
                        assert(map.names()[n] == k);
                        assert(j == n);
                    } else {
                        assert(j < n);
                        assert(map.entries@[j] == old(map).entries@[j]);
                        assert(old(map).names()[j] == k);
                        old(map).lemma_entry_view(j);
                        old(map).lemma_index_of_valid(k);
                        let j2 = old(map).spec_index_of(k);
                        assert(old(map).names()[j2] == k);
                        assert(j2 == j);
                    }
                }
                assert forall|k: Seq<char>| result.dom().contains(k) implies map@.dom().contains(
                    k,
                ) by {
                    if k == package_name@ {
                        assert(map.names()[n] == k);
                    } else {
                        let i0 = choose|i0: int|
                            0 <= i0 < old(map).names().len() && old(map).names()[i0] == k;
                        assert(map.names()[i0] == k);
                    }
                }
                assert(map@ =~= result);
            }
        },
    }
}

// --- whole-manifest ingestion ---

/// Folds one dependency table of `consumer` into the map, in table order.
pub open spec fn spec_ingest_table(
    m: Map<Seq<char>, (Set<Seq<char>>, Set<Seq<char>>)>,
    table: Seq<(Seq<char>, Seq<char>)>,
    consumer: Seq<char>,
    args: Args,
) -> Map<Seq<char>, (Set<Seq<char>>, Set<Seq<char>>)>
    decreases table.len(),
{
    if table.len() == 0 {
        m
    } else {
        let e = table.last();
        spec_ingest(spec_ingest_table(m, table.drop_last(), consumer, args), e.0, e.1, consumer, args)
    }
}

/// The aggregation pass over one manifest: the production table counts
/// unless the development flag alone redirects the scan, and the development
/// table counts exactly when its flag is set.
pub open spec fn spec_ingest_manifest(
    m: Map<Seq<char>, (Set<Seq<char>>, Set<Seq<char>>)>,
    manifest: PackageJson,
    args: Args,
) -> Map<Seq<char>, (Set<Seq<char>>, Set<Seq<char>>)> {
    let m1 = if args.prod || !args.dev {
        spec_ingest_table(m, manifest.dependencies@, manifest.name@, args)
    } else {
        m
    };
    if args.dev {
        spec_ingest_table(m1, manifest.dev_dependencies@, manifest.name@, args)
    } else {
        m1
    }
}

/// Folds one dependency table of one manifest into the map.
fn ingest_table(table: &Dependencies, consumer: &String, map: &mut DependencyMap, args: &Args)
    requires
        old(map).wf(),
    ensures
        final(map).wf(),
        final(map)@ == spec_ingest_table(old(map)@, table@, consumer@, *args),
{
    let n = table.0.len();
    let mut i: usize = 0;
    proof {
        assert(table@.take(0) =~= Seq::<(Seq<char>, Seq<char>)>::empty());
    }
    while i < n
        invariant
            0 <= i <= n,
            n == table@.len(),
            map.wf(),
            map@ == spec_ingest_table(old(map)@, table@.take(i as int), consumer@, *args),
        decreases n - i,
    {
        proof {
            assert(table@.take(i + 1).drop_last() =~= table@.take(i as int));
            assert(table@.take(i + 1).last() == table@[i as int]);
        }
        add_to_dependency_map(map, &table.0[i].0, &table.0[i].1, consumer, args);
        i += 1;
    }
    proof {
        assert(table@.take(n as int) =~= table@);
    }
}

/// Feeds every enabled dependency table of one manifest into the map, the
/// manifest's package name standing as the consumer.
pub fn ingest_manifest(map: &mut DependencyMap, manifest: &PackageJson, args: &Args)
    requires
        old(map).wf(),
    ensures
        final(map).wf(),
        final(map)@ == spec_ingest_manifest(old(map)@, *manifest, *args),
{
    if args.prod || !args.dev {
        ingest_table(&manifest.dependencies, &manifest.name, map, args);
    }
    if args.dev {
        ingest_table(&manifest.dev_dependencies, &manifest.name, map, args);
    }
}

// --- order independence of ingestion ---

/// Folds a stream of (dependency name, raw version, consumer) triples into
/// a map, in stream order.
pub open spec fn spec_ingest_all(
    m: Map<Seq<char>, (Set<Seq<char>>, Set<Seq<char>>)>,
    triples: Seq<(Seq<char>, Seq<char>, Seq<char>)>,
    args: Args,
) -> Map<Seq<char>, (Set<Seq<char>>, Set<Seq<char>>)>
    decreases triples.len(),
{
    if triples.len() == 0 {
        m
    } else {
        let t = triples.last();
        spec_ingest(spec_ingest_all(m, triples.drop_last(), args), t.0, t.1, t.2, args)
    }
}

/// Ingesting two triples commutes: whether a triple is accepted and what it
/// adds never depend on the map, and set insertions commute.
proof fn lemma_ingest_commutes(
    m: Map<Seq<char>, (Set<Seq<char>>, Set<Seq<char>>)>,
    a: (Seq<char>, Seq<char>, Seq<char>),
    b: (Seq<char>, Seq<char>, Seq<char>),
    args: Args,
)
    ensures
        spec_ingest(spec_ingest(m, a.0, a.1, a.2, args), b.0, b.1, b.2, args) == spec_ingest(
            spec_ingest(m, b.0, b.1, b.2, args),
            a.0,
            a.1,
            a.2,
            args,
        ),
{
    let lhs = spec_ingest(spec_ingest(m, a.0, a.1, a.2, args), b.0, b.1, b.2, args);
    let rhs = spec_ingest(spec_ingest(m, b.0, b.1, b.2, args), a.0, a.1, a.2, args);
    assert(lhs =~~= rhs);
}

/// Any one triple of a stream may be ingested last.
proof fn lemma_ingest_all_pull_out(
    m: Map<Seq<char>, (Set<Seq<char>>, Set<Seq<char>>)>,
    s: Seq<(Seq<char>, Seq<char>, Seq<char>)>,
    j: int,
    args: Args,
)
    requires
        0 <= j < s.len(),
    ensures
        spec_ingest_all(m, s, args) == spec_ingest(
            spec_ingest_all(m, s.remove(j), args),
            s[j].0,
            s[j].1,
            s[j].2,
            args,
        ),
    decreases s.len(),
{
    if j == s.len() - 1 {
        assert(s.remove(j) =~= s.drop_last());
    } else {
        let t = s.drop_last();
        lemma_ingest_all_pull_out(m, t, j, args);
        lemma_ingest_commutes(spec_ingest_all(m, t.remove(j), args), t[j], s.last(), args);
        assert(s.remove(j).drop_last() =~= t.remove(j));
        assert(s.remove(j).last() == s.last());
        assert(s.remove(j).len() > 0);
    }
}

/// Law: ingestion is order-independent. Folding any permutation of the same
/// input triples over the same starting map and configuration yields the
/// same aggregation map, record for record.
pub proof fn lemma_ingest_order_independent(
    m: Map<Seq<char>, (Set<Seq<char>>, Set<Seq<char>>)>,
    t1: Seq<(Seq<char>, Seq<char>, Seq<char>)>,
    t2: Seq<(Seq<char>, Seq<char>, Seq<char>)>,
    args: Args,
)
    requires
        t1.to_multiset() == t2.to_multiset(),
    ensures
        spec_ingest_all(m, t1, args) == spec_ingest_all(m, t2, args),
    decreases t1.len(),
{
    broadcast use vstd::seq_lib::group_to_multiset_ensures;

    if t1.len() == 0 {
        assert(t2.to_multiset().len() == 0);
        assert(t2.len() == 0);
    } else {
        let x = t1.last();
        assert(t1.contains(x));
        assert(t1.to_multiset().count(x) > 0);
        assert(t2.contains(x));
        let j = choose|j: int| 0 <= j < t2.len() && t2[j] == x;
        lemma_ingest_all_pull_out(m, t2, j, args);
        assert(t1.drop_last() =~= t1.remove(t1.len() - 1));
        assert(t1.drop_last().to_multiset() == t2.remove(j).to_multiset()) by {
            assert(t1.remove(t1.len() - 1).to_multiset() =~= t1.to_multiset().remove(x));
            assert(t2.remove(j).to_multiset() =~= t2.to_multiset().remove(x));
        }
        lemma_ingest_order_independent(m, t1.drop_last(), t2.remove(j), args);
    }
}

/// Whether every element of `part` occurs in `whole`.
fn vec_contains_all(whole: &Vec<String>, part: &Vec<String>) -> (r: bool)
    ensures
        r == forall|i: int|
            0 <= i < part.deep_view().len() ==> whole.deep_view().contains(
                #[trigger] part.deep_view()[i],
            ),
{
    let mut i: usize = 0;
    while i < part.len()
        invariant
            0 <= i <= part.len(),
            forall|j: int|
                0 <= j < i ==> whole.deep_view().contains(#[trigger] part.deep_view()[j]),
        decreases part.len() - i,
    {
        if !contains_string(whole, &part[i]) {
            proof {
                assert(!whole.deep_view().contains(part.deep_view()[i as int]));
            }
            return false;
        }
        i += 1;
    }
    true
}

} // verus!
