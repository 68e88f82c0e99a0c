//! The name-based search projection: a single-pass grouping from search key
//! (a dependency name, or `name@version` in deep mode) to the set of
//! consumer names that declare it.

use vstd::prelude::*;

use crate::models::package_json::{Dependencies, PackageJson};
use crate::models::semantic_version::{normalize, spec_normalize};
use crate::text::{pattern_matches, spec_pattern_matches, str_eq};
use crate::Args;

verus! {

/// Mapping from search key to the consumers that declare it.
pub struct SearchMap {
    pub entries: Vec<(String, Vec<String>)>,
}

impl View for SearchMap {
    type V = Map<Seq<char>, Set<Seq<char>>>;

    open spec fn view(&self) -> Map<Seq<char>, Set<Seq<char>>> {
        Map::new(
            |k: Seq<char>| self.names().contains(k),
            |k: Seq<char>| self.entries@[self.spec_index_of(k)].1.deep_view().to_set(),
        )
    }
}

impl SearchMap {
    /// The search keys, in first-sighting order.
    pub open spec fn names(&self) -> Seq<Seq<char>> {
        Seq::new(self.entries@.len() as nat, |i: int| self.entries@[i].0@)
    }

    /// The entries as the map holds them.
    pub open spec fn entries_seq(&self) -> Seq<(String, Vec<String>)> {
        self.entries@
    }

    /// Where a key stands in the entry list.
    pub open spec fn spec_index_of(&self, k: Seq<char>) -> int {
        choose|i: int| 0 <= i < self.entries@.len() && self.entries@[i].0@ == k
    }

    /// Keys are unique and every consumer list is deduplicated.
    pub open spec fn wf(&self) -> bool {
        &&& self.names().no_duplicates()
        &&& forall|i: int|
            0 <= i < self.entries@.len() ==> (#[trigger] self.entries@[i].1).deep_view().no_duplicates()
    }

    /// A key the map contains stands at the index the view looks up.
    pub proof fn lemma_index_of_valid(&self, k: Seq<char>)
        requires
            self.names().contains(k),
        ensures
            0 <= self.spec_index_of(k) < self.entries_seq().len(),
            self.entries_seq()[self.spec_index_of(k)].0@ == k,
    {
        let i = choose|i: int| 0 <= i < self.names().len() && self.names()[i] == k;
        assert(self.entries_seq()[i].0@ == k);
        let j = self.spec_index_of(k);
        assert(0 <= j < self.entries_seq().len() && self.entries_seq()[j].0@ == k);
    }

    /// In a well-formed map, each entry is the consumer set its key maps to.
    pub proof fn lemma_entry_view(&self, i: int)
        requires
            self.wf(),
            0 <= i < self.entries_seq().len(),
        ensures
            self@.dom().contains(self.entries_seq()[i].0@),
            self@[self.entries_seq()[i].0@] == self.entries_seq()[i].1.deep_view().to_set(),
    {
        let k = self.entries@[i].0@;
        assert(self.names()[i] == k);
        let j = self.spec_index_of(k);
        assert(0 <= j < self.entries@.len() && self.entries@[j].0@ == k);
        assert(self.names()[j] == k);
        assert(i == j);
    }

    /// An empty search map.
    pub fn new() -> (m: Self)
        ensures
            m.wf(),
            m@ == Map::<Seq<char>, Set<Seq<char>>>::empty(),
            m.entries_seq().len() == 0,
    {
        let m = SearchMap { entries: Vec::new() };
        proof {
            assert(m@ =~= Map::<Seq<char>, Set<Seq<char>>>::empty());
        }
        m
    }

    /// Looks a key up in the entry list.
    fn find(&self, key: &String) -> (r: Option<usize>)
        ensures
            match r {
                Some(i) => i < self.entries_seq().len() && self.entries_seq()[i as int].0@ == key@,
                None => !self.names().contains(key@),
            },
    {
        let mut i: usize = 0;
        while i < self.entries.len()
            invariant
                0 <= i <= self.entries@.len(),
                forall|j: int| 0 <= j < i ==> self.entries@[j].0@ != key@,
            decreases self.entries@.len() - i,
        {
            if str_eq(self.entries[i].0.as_str(), key.as_str()) {
                return Some(i);
            }
            i += 1;
        }
        proof {
            assert(forall|j: int|
                0 <= j < self.names().len() ==> self.names()[j] == self.entries@[j].0@);
        }
        None
    }

    /// Adds `consumer` to the set recorded for `key`, creating the entry on
    /// first sighting, as [`spec_record`] describes.
    pub fn record(&mut self, key: String, consumer: &String)
        requires
            old(self).wf(),
        ensures
            final(self).wf(),
            final(self)@ == spec_record(old(self)@, key@, consumer@),
    {
        let ghost result = spec_record(old(self)@, key@, consumer@);
        match self.find(&key) {
            Some(i) => {
                proof {
                    old(self).lemma_entry_view(i as int);
                }
                if !crate::aggregate::contains_string(&self.entries[i].1, consumer) {
                    self.entries[i].1.push(consumer.clone());
                    proof {
                        assert(self.entries@[i as int].1.deep_view() =~= old(
                            self,
                        ).entries@[i as int].1.deep_view().push(consumer@));
                        old(self).entries@[i as int].1.deep_view().lemma_push_to_set_commute(
                            consumer@,
                        );
                    }
                } else {
                    proof {
                        assert(self.entries@[i as int].1.deep_view().to_set() =~= old(
                            self,
                        ).entries@[i as int].1.deep_view().to_set().insert(consumer@));
                    }
                }
                proof {
                    assert(self.names() =~= old(self).names());
                    assert(self.wf());
                    assert forall|k: Seq<char>| self@.dom().contains(k) implies result.dom()
                        .contains(k) && self@[k] == result[k] by {
                        self.lemma_index_of_valid(k);
                        old(self).lemma_index_of_valid(k);
                        let j = self.spec_index_of(k);
                        if k == key@ {
                            assert(self.names()[j] == k);
                            assert(self.names()[i as int] == k);
                            assert(j == i);
                        } else {
                            assert(j != i);
                            assert(self.entries@[j] == old(self).entries@[j]);
                            old(self).lemma_entry_view(j);
                            let j2 = old(self).spec_index_of(k);
                            assert(old(self).names()[j2] == k);
                            assert(old(self).names()[j] == k);
                            assert(j2 == j);
                        }
                    }
                    assert forall|k: Seq<char>| result.dom().contains(k) implies self@.dom()
                        .contains(k) by {
                        assert(old(self).names().contains(key@));
                    }
                    assert(self@ =~= result);
                }
            },
            None => {
                let mut consumers: Vec<String> = Vec::new();
                consumers.push(consumer.clone());
                proof {
                    assert(consumers.deep_view() =~= Seq::<Seq<char>>::empty().push(consumer@));
                    Seq::<Seq<char>>::empty().lemma_push_to_set_commute(consumer@);
                    assert(Seq::<Seq<char>>::empty().to_set() =~= Set::<Seq<char>>::empty());
                    assert(consumers.deep_view().to_set() =~= Set::<Seq<char>>::empty().insert(
                        consumer@,
                    ));
                }
                let ghost cc = consumers;
                self.entries.push((key.clone(), consumers));
                proof {
                    let n = old(self).entries@.len() as int;
                    assert(self.entries@ =~= old(self).entries@.push((key, cc)));
                    assert(self.names() =~= old(self).names().push(key@));
                    assert(self.names().no_duplicates()) by {
                        assert(forall|j: int| 0 <= j < n ==> self.names()[j] == old(self).names()[j]);
                        assert(forall|j: int| 0 <= j < n ==> old(self).names()[j] != key@);
                    }
                    assert(self.wf());
                    self.lemma_entry_view(n);
                    assert forall|k: Seq<char>| self@.dom().contains(k) implies result.dom()
                        .contains(k) && self@[k] == result[k] by {
                        self.lemma_index_of_valid(k);
                        let j = self.spec_index_of(k);
                        if k == key@ {
                            assert(self.names()[j] == k);
                            assert(self.names()[n] == k);
                            assert(j == n);
                        } else {
                            assert(j < n);
                            assert(self.entries@[j] == old(self).entries@[j]);
                            assert(old(self).names()[j] == k);
                            old(self).lemma_entry_view(j);
                            old(self).lemma_index_of_valid(k);
                            let j2 = old(self).spec_index_of(k);
                            assert(old(self).names()[j2] == k);
                            assert(j2 == j);
                        }
                    }
                    assert forall|k: Seq<char>| result.dom().contains(k) implies self@.dom()
                        .contains(k) by {
                        if k == key@ {
                            assert(self.names()[n] == k);
                        } else {
                            let i0 = choose|i0: int|
                                0 <= i0 < old(self).names().len() && old(self).names()[i0] == k;
                            assert(self.names()[i0] == k);
                        }
                    }
                    assert(self@ =~= result);
                }
            },
        }
    }
}

/// Adds one consumer under one search key: the key's set gains the
/// consumer, and a key never seen before starts from the empty set.
pub open spec fn spec_record(
    m: Map<Seq<char>, Set<Seq<char>>>,
    k: Seq<char>,
    c: Seq<char>,
) -> Map<Seq<char>, Set<Seq<char>>> {
    let cur = if m.dom().contains(k) {
        m[k]
    } else {
        Set::<Seq<char>>::empty()
    };
    m.insert(k, cur.insert(c))
}

/// The search step for one table entry: an entry whose dependency name the
/// pattern does not match changes nothing; a matching one records the
/// consumer under the bare name, or under `name@normalizedVersion` in deep
/// mode.
pub open spec fn spec_search_one(
    m: Map<Seq<char>, Set<Seq<char>>>,
    name: Seq<char>,
    version: Seq<char>,
    consumer: Seq<char>,
    deep: bool,
    pattern: Seq<char>,
) -> Map<Seq<char>, Set<Seq<char>>> {
    if !spec_pattern_matches(pattern, name) {
        m
    } else {
        let key = if deep {
            name + "@"@ + spec_normalize(version)
        } else {
            name
        };
        spec_record(m, key, consumer)
    }
}

/// Folds one dependency table into the search map, in table order.
pub open spec fn spec_search_table(
    m: Map<Seq<char>, Set<Seq<char>>>,
    table: Seq<(Seq<char>, Seq<char>)>,
    consumer: Seq<char>,
    deep: bool,
    pattern: Seq<char>,
) -> Map<Seq<char>, Set<Seq<char>>>
    decreases table.len(),
{
    if table.len() == 0 {
        m
    } else {
        let e = table.last();
        spec_search_one(
            spec_search_table(m, table.drop_last(), consumer, deep, pattern),
            e.0,
            e.1,
            consumer,
            deep,
            pattern,
        )
    }
}

/// The whole search pass over one manifest: the production table counts when
/// its flag is set or no kind flag is set at all, and the development and
/// peer tables count exactly when their flags are set.
pub open spec fn spec_search_deps(
    m: Map<Seq<char>, Set<Seq<char>>>,
    manifest: PackageJson,
    args: Args,
    pattern: Seq<char>,
) -> Map<Seq<char>, Set<Seq<char>>> {
    let m1 = if args.prod || (!args.dev && !args.peer) {
        spec_search_table(m, manifest.dependencies@, manifest.name@, args.deep, pattern)
    } else {
        m
    };
    let m2 = if args.dev {
        spec_search_table(m1, manifest.dev_dependencies@, manifest.name@, args.deep, pattern)
    } else {
        m1
    };
    if args.peer {
        spec_search_table(m2, manifest.peer_dependencies@, manifest.name@, args.deep, pattern)
    } else {
        m2
    }
}

/// Folds one dependency table of `consumer` into the map.
fn search_table(table: &Dependencies, consumer: &String, map: &mut SearchMap, deep: bool, pattern: &String)
    requires
        old(map).wf(),
    ensures
        final(map).wf(),
        final(map)@ == spec_search_table(old(map)@, table@, consumer@, deep, pattern@),
{
    let n = table.0.len();
    let mut i: usize = 0;
    proof {
        assert(table@.take(0) =~= Seq::<(Seq<char>, Seq<char>)>::empty());
    }
    while i < n
        invariant
            0 <= i <= n,
            n == table@.len(),
            map.wf(),
            map@ == spec_search_table(old(map)@, table@.take(i as int), consumer@, deep, pattern@),
        decreases n - i,
    {
        let name = &table.0[i].0;
        let version = &table.0[i].1;
        proof {
            assert(table@.take(i + 1).drop_last() =~= table@.take(i as int));
            assert(table@.take(i + 1).last() == table@[i as int]);
        }
        if pattern_matches(pattern.as_str(), name.as_str()) {
            let v = normalize(version.as_str());
            let key = if deep {
                let mut k = name.clone();
                k.append("@");
                k.append(v.as_str());
                k
            } else {
                name.clone()
            };
            map.record(key, consumer);
        }
        i += 1;
    }
    proof {
        assert(table@.take(n as int) =~= table@);
    }
}

/// Searches every enabled dependency table of one manifest, recording, per
/// matching dependency, the manifest's name as a consumer.
pub fn search_deps(manifest: &PackageJson, map: &mut SearchMap, args: &Args, value: &String)
    requires
        old(map).wf(),
    ensures
        final(map).wf(),
        final(map)@ == spec_search_deps(old(map)@, *manifest, *args, value@),
{
    if args.prod || (!args.dev && !args.peer) {
        search_table(&manifest.dependencies, &manifest.name, map, args.deep, value);
    }
    if args.dev {
        search_table(&manifest.dev_dependencies, &manifest.name, map, args.deep, value);
    }
    if args.peer {
        search_table(&manifest.peer_dependencies, &manifest.name, map, args.deep, value);
    }
}

} // verus!
