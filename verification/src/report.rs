//! The report projection: turns the aggregation map into an ordered list of
//! output rows, applying the minimum-consumer threshold, sorting consumers
//! lexicographically, versions by the comparator, and rows by name.

use vstd::prelude::*;

use crate::aggregate::DependencyMap;
use crate::models::semantic_version::{
    lemma_version_string_le_total, lemma_version_string_le_transitive, spec_version_string_le,
    version_string_le,
};
use crate::text::{lemma_lex_le_total, lemma_lex_le_transitive, lex_le, str_lex_le};

verus! {

/// One row of the report: a dependency's name, how many distinct consumers
/// request it, and its sorted version and consumer lists.
pub struct ReportRow {
    pub name: String,
    pub count: usize,
    pub workspaces: Vec<String>,
    pub versions: Vec<String>,
}

/// Nondecreasing in lexicographic order.
pub open spec fn sorted_lex(s: Seq<Seq<char>>) -> bool {
    forall|i: int, j: int| 0 <= i < j < s.len() ==> lex_le(s[i], s[j])
}

/// Nondecreasing in the version-string order.
pub open spec fn sorted_by_version(s: Seq<Seq<char>>) -> bool {
    forall|i: int, j: int| 0 <= i < j < s.len() ==> spec_version_string_le(s[i], s[j])
}

/// What one row states about the aggregated record `rec` (its version set,
/// then its consumer set): the count is the number of distinct consumers,
/// the consumer list is exactly the consumer set sorted lexicographically,
/// and the version list is exactly the version set in the version order.
pub open spec fn row_matches(r: ReportRow, rec: (Set<Seq<char>>, Set<Seq<char>>)) -> bool {
    &&& r.count == rec.1.len()
    &&& r.workspaces.deep_view().no_duplicates()
    &&& sorted_lex(r.workspaces.deep_view())
    &&& r.workspaces.deep_view().to_set() == rec.1
    &&& r.versions.deep_view().no_duplicates()
    &&& sorted_by_version(r.versions.deep_view())
    &&& r.versions.deep_view().to_set() == rec.0
}

/// Sorts strings lexicographically, keeping exactly the same elements.
fn sort_strings_lex(v: &Vec<String>) -> (r: Vec<String>)
    ensures
        r.deep_view().to_multiset() == v.deep_view().to_multiset(),
        sorted_lex(r.deep_view()),
{
    let mut out: Vec<String> = Vec::new();
    let mut i: usize = 0;
    proof {
        assert(v.deep_view().take(0) =~= Seq::<Seq<char>>::empty());
        assert(out.deep_view() =~= Seq::<Seq<char>>::empty());
        assert(out.deep_view().to_multiset() =~= v.deep_view().take(0).to_multiset());
    }
    while i < v.len()
        invariant
            0 <= i <= v.deep_view().len(),
            v.deep_view().len() == v@.len(),
            out.deep_view().to_multiset() == v.deep_view().take(i as int).to_multiset(),
            sorted_lex(out.deep_view()),
        decreases v@.len() - i,
    {
        let x = v[i].clone();
        let ghost old_out = out.deep_view();
        let mut k: usize = 0;
        loop
            invariant
                0 <= k <= out@.len(),
                out.deep_view() == old_out,
                forall|idx: int| 0 <= idx < k ==> lex_le(old_out[idx], x@),
            ensures
                0 <= k <= out@.len(),
                out.deep_view() == old_out,
                forall|idx: int| 0 <= idx < k ==> lex_le(old_out[idx], x@),
                k < out@.len() ==> !lex_le(old_out[k as int], x@),
            decreases out@.len() - k,
        {
            if k >= out.len() {
                break ;
            }
            if !str_lex_le(out[k].as_str(), x.as_str()) {
                break ;
            }
            k += 1;
        }
        out.insert(k, x);
        proof {
            assert(out.deep_view() =~= old_out.insert(k as int, x@));
            assert(sorted_lex(out.deep_view())) by {
                let s = out.deep_view();
                assert forall|a: int, b: int| 0 <= a < b < s.len() implies lex_le(s[a], s[b]) by {
                    if b < k {
                        assert(s[a] == old_out[a] && s[b] == old_out[b]);
                    } else if a < k && b == k {
                        assert(s[a] == old_out[a] && s[b] == x@);
                    } else if a == k {
                        assert(s[a] == x@ && s[b] == old_out[b - 1]);
                        lemma_lex_le_total(old_out[k as int], x@);
                        if b - 1 > k {
                            lemma_lex_le_transitive(x@, old_out[k as int], old_out[b - 1]);
                        }
                    } else if a < k && b > k {
                        assert(s[a] == old_out[a] && s[b] == old_out[b - 1]);
                        if a == b - 1 {
                            lemma_lex_le_total(old_out[k as int], x@);
                        }
                    } else {
                        assert(s[a] == old_out[a - 1] && s[b] == old_out[b - 1]);
                    }
                }
            }
            assert(x@ == v.deep_view()[i as int]);
            vstd::seq_lib::to_multiset_insert::<Seq<char>>(old_out, k as int, x@);
            vstd::seq_lib::to_multiset_build::<Seq<char>>(v.deep_view().take(i as int), x@);
            assert(v.deep_view().take(i + 1) =~= v.deep_view().take(i as int).push(x@));
            assert(out.deep_view().to_multiset() =~= v.deep_view().take(i + 1).to_multiset());
        }
        i += 1;
    }
    proof {
        assert(v.deep_view().take(v.deep_view().len() as int) =~= v.deep_view());
    }
    out
}

/// Sorts version strings in the report's version order, keeping exactly the
/// same elements.
fn sort_strings_by_version(v: &Vec<String>) -> (r: Vec<String>)
    ensures
        r.deep_view().to_multiset() == v.deep_view().to_multiset(),
        sorted_by_version(r.deep_view()),
{
    let mut out: Vec<String> = Vec::new();
    let mut i: usize = 0;
    proof {
        assert(v.deep_view().take(0) =~= Seq::<Seq<char>>::empty());
        assert(out.deep_view() =~= Seq::<Seq<char>>::empty());
        assert(out.deep_view().to_multiset() =~= v.deep_view().take(0).to_multiset());
    }
    while i < v.len()
        invariant
            0 <= i <= v.deep_view().len(),
            v.deep_view().len() == v@.len(),
            out.deep_view().to_multiset() == v.deep_view().take(i as int).to_multiset(),
            sorted_by_version(out.deep_view()),
        decreases v@.len() - i,
    {
        let x = v[i].clone();
        let ghost old_out = out.deep_view();
        let mut k: usize = 0;
        loop
            invariant
                0 <= k <= out@.len(),
                out.deep_view() == old_out,
                forall|idx: int| 0 <= idx < k ==> spec_version_string_le(old_out[idx], x@),
            ensures
                0 <= k <= out@.len(),
                out.deep_view() == old_out,
                forall|idx: int| 0 <= idx < k ==> spec_version_string_le(old_out[idx], x@),
                k < out@.len() ==> !spec_version_string_le(old_out[k as int], x@),
            decreases out@.len() - k,
        {
            if k >= out.len() {
                break ;
            }
            if !version_string_le(&out[k], &x) {
                break ;
            }
            k += 1;
        }
        out.insert(k, x);
        proof {
            assert(out.deep_view() =~= old_out.insert(k as int, x@));
            assert(sorted_by_version(out.deep_view())) by {
                let s = out.deep_view();
                assert forall|a: int, b: int|
                    0 <= a < b < s.len() implies spec_version_string_le(s[a], s[b]) by {
                    if b < k {
                        assert(s[a] == old_out[a] && s[b] == old_out[b]);
                    } else if a < k && b == k {
                        assert(s[a] == old_out[a] && s[b] == x@);
                    } else if a == k {
                        assert(s[a] == x@ && s[b] == old_out[b - 1]);
                        lemma_version_string_le_total(old_out[k as int], x@);
                        if b - 1 > k {
                            lemma_version_string_le_transitive(
                                x@,
                                old_out[k as int],
                                old_out[b - 1],
                            );
                        }
                    } else if a < k && b > k {
                        assert(s[a] == old_out[a] && s[b] == old_out[b - 1]);
                        if a == b - 1 {
                            lemma_version_string_le_total(old_out[k as int], x@);
                        }
                    } else {
                        assert(s[a] == old_out[a - 1] && s[b] == old_out[b - 1]);
                    }
                }
            }
            assert(x@ == v.deep_view()[i as int]);
            vstd::seq_lib::to_multiset_insert::<Seq<char>>(old_out, k as int, x@);
            vstd::seq_lib::to_multiset_build::<Seq<char>>(v.deep_view().take(i as int), x@);
            assert(v.deep_view().take(i + 1) =~= v.deep_view().take(i as int).push(x@));
            assert(out.deep_view().to_multiset() =~= v.deep_view().take(i + 1).to_multiset());
        }
        i += 1;
    }
    proof {
        assert(v.deep_view().take(v.deep_view().len() as int) =~= v.deep_view());
    }
    out
}

/// A permutation of a duplicate-free list keeps its elements and stays
/// duplicate-free.
proof fn lemma_permutation_keeps_set(a: Seq<Seq<char>>, b: Seq<Seq<char>>)
    requires
        a.to_multiset() == b.to_multiset(),
        a.no_duplicates(),
    ensures
        b.no_duplicates(),
        b.to_set() == a.to_set(),
{
    broadcast use vstd::seq_lib::group_to_multiset_ensures;

    a.lemma_multiset_has_no_duplicates();
    b.lemma_multiset_has_no_duplicates_conv();
    assert forall|x: Seq<char>| a.to_set().contains(x) implies b.to_set().contains(x) by {
        assert(a.to_multiset().count(x) > 0);
    }
    assert forall|x: Seq<char>| b.to_set().contains(x) implies a.to_set().contains(x) by {
        assert(b.to_multiset().count(x) > 0);
    }
    assert(b.to_set() =~= a.to_set());
}

/// The position before the first row whose name sorts after `name`.
fn lower_bound_by_name(rows: &Vec<ReportRow>, name: &String) -> (k: usize)
    ensures
        k <= rows@.len(),
        forall|idx: int| 0 <= idx < k ==> lex_le(rows@[idx].name@, name@),
        k < rows@.len() ==> !lex_le(rows@[k as int].name@, name@),
{
    let mut k: usize = 0;
    while k < rows.len()
        invariant
            0 <= k <= rows@.len(),
            forall|idx: int| 0 <= idx < k ==> lex_le(rows@[idx].name@, name@),
        decreases rows@.len() - k,
    {
        if !str_lex_le(rows[k].name.as_str(), name.as_str()) {
            return k;
        }
        k += 1;
    }
    k
}

/// Projects the aggregation map into report rows: one row per dependency
/// with at least `min` distinct consumers, rows sorted strictly by name,
/// each row carrying the dependency's sorted consumer and version lists.
#[verifier::rlimit(30)]
pub fn project(map: &DependencyMap, min: usize) -> (rows: Vec<ReportRow>)
    requires
        map.wf(),
    ensures
        forall|idx: int|
            0 <= idx < rows@.len() ==> {
                &&& map@.dom().contains((#[trigger] rows@[idx]).name@)
                &&& map@[rows@[idx].name@].1.len() >= min
                &&& row_matches(rows@[idx], map@[rows@[idx].name@])
            },
        forall|k: Seq<char>|
            map@.dom().contains(k) && map@[k].1.len() >= min ==> exists|idx: int|
                0 <= idx < rows@.len() && (#[trigger] rows@[idx]).name@ == k,
        forall|a: int, b: int|
            0 <= a < b < rows@.len() ==> lex_le(
                (#[trigger] rows@[a]).name@,
                (#[trigger] rows@[b]).name@,
            ) && rows@[a].name@ != rows@[b].name@,
{
    let mut rows: Vec<ReportRow> = Vec::new();
    let n = map.len();
    let mut i: usize = 0;
    while i < n
        invariant
            0 <= i <= n,
            map.wf(),
            n == map.entries_seq().len(),
            forall|idx: int|
                0 <= idx < rows@.len() ==> {
                    &&& map@.dom().contains((#[trigger] rows@[idx]).name@)
                    &&& map@[rows@[idx].name@].1.len() >= min
                    &&& row_matches(rows@[idx], map@[rows@[idx].name@])
                },
            forall|idx: int|
                0 <= idx < rows@.len() ==> exists|j: int|
                    0 <= j < i && map.entries_seq()[j].0@ == (#[trigger] rows@[idx]).name@,
            forall|j: int|
                0 <= j < i && (#[trigger] map.entries_seq()[j]).1.workspaces_set().len() >= min
                    ==> exists|idx: int|
                    0 <= idx < rows@.len() && (#[trigger] rows@[idx]).name@
                        == map.entries_seq()[j].0@,
            forall|a: int, b: int|
                0 <= a < b < rows@.len() ==> lex_le(
                    (#[trigger] rows@[a]).name@,
                    (#[trigger] rows@[b]).name@,
                ) && rows@[a].name@ != rows@[b].name@,
        decreases n - i,
    {
        let e = map.entry_at(i);
        proof {
            map.lemma_entry_view(i as int);
            assert(e.1.wf());
        }
        let count = e.1.len();
        if count >= min {
            let ws = sort_strings_lex(&e.1.workspaces);
            let vs = sort_strings_by_version(&e.1.versions);
            proof {
                lemma_permutation_keeps_set(e.1.workspaces.deep_view(), ws.deep_view());
                lemma_permutation_keeps_set(e.1.versions.deep_view(), vs.deep_view());
            }
            let row = ReportRow { name: e.0.clone(), count, workspaces: ws, versions: vs };
            let ghost old_rows = rows@;
            let k = lower_bound_by_name(&rows, &row.name);
            proof {
                // restate the gathered facts over the snapshot, for use after
                // the insertion below
                assert(forall|a: int, b: int|
                    0 <= a < b < old_rows.len() ==> lex_le(
                        (#[trigger] old_rows[a]).name@,
                        (#[trigger] old_rows[b]).name@,
                    ) && old_rows[a].name@ != old_rows[b].name@);
                assert(forall|idx: int|
                    0 <= idx < k ==> lex_le((#[trigger] old_rows[idx]).name@, row.name@));
                assert(k < old_rows.len() ==> !lex_le(old_rows[k as int].name@, row.name@));
                // the new name is fresh among the gathered rows
                assert forall|idx: int| 0 <= idx < old_rows.len() implies (#[trigger] old_rows[idx]).name@
                    != row.name@ by {
                    assert(rows@[idx] == old_rows[idx]);
                    let j = choose|j: int|
                        0 <= j < i && map.entries_seq()[j].0@ == (#[trigger] rows@[idx]).name@;
                    assert(map.names()[j] == old_rows[idx].name@);
                    assert(map.names()[i as int] == row.name@);
                }
            }
            rows.insert(k, row);
            proof {
                assert(rows@ =~= old_rows.insert(k as int, row));
                let s = rows@;
                assert(forall|j: int| 0 <= j < k ==> s[j] == old_rows[j]);
                assert(s[k as int] == row);
                assert(forall|j: int| k < j < s.len() ==> s[j] == old_rows[j - 1]);
                assert forall|a: int, b: int| 0 <= a < b < s.len() implies lex_le(
                    s[a].name@,
                    s[b].name@,
                ) by {
                    if b < k {
                        assert(s[a] == old_rows[a] && s[b] == old_rows[b]);
                    } else if a < k && b == k {
                        assert(s[a] == old_rows[a] && s[b] == row);
                    } else if a == k {
                        assert(s[a] == row && s[b] == old_rows[b - 1]);
                        lemma_lex_le_total(old_rows[k as int].name@, row.name@);
                        if b - 1 > k {
                            lemma_lex_le_transitive(
                                row.name@,
                                old_rows[k as int].name@,
                                old_rows[b - 1].name@,
                            );
                        }
                    } else if a < k && b > k {
                        assert(s[a] == old_rows[a] && s[b] == old_rows[b - 1]);
                    } else {
                        assert(s[a] == old_rows[a - 1] && s[b] == old_rows[b - 1]);
                    }
                }
                assert forall|a: int, b: int| 0 <= a < b < s.len() implies s[a].name@
                    != s[b].name@ by {
                    if b < k {
                        assert(s[a] == old_rows[a] && s[b] == old_rows[b]);
                    } else if a < k && b == k {
                        assert(s[a] == old_rows[a] && s[b] == row);
                    } else if a == k {
                        assert(s[a] == row && s[b] == old_rows[b - 1]);
                    } else if a < k && b > k {
                        assert(s[a] == old_rows[a] && s[b] == old_rows[b - 1]);
                    } else {
                        assert(s[a] == old_rows[a - 1] && s[b] == old_rows[b - 1]);
                    }
                }
                assert(forall|a: int, b: int|
                    0 <= a < b < rows@.len() ==> lex_le(
                        (#[trigger] rows@[a]).name@,
                        (#[trigger] rows@[b]).name@,
                    ) && rows@[a].name@ != rows@[b].name@);
                assert forall|idx: int| 0 <= idx < s.len() implies exists|j: int|
                    0 <= j <= i && map.entries_seq()[j].0@ == (#[trigger] s[idx]).name@ by {
                    if idx == k {
                        assert(map.entries_seq()[i as int].0@ == s[idx].name@);
                    } else {
                        let oidx = if idx < k {
                            idx
                        } else {
                            idx - 1
                        };
                        assert(s[idx] == old_rows[oidx]);
                    }
                }
                assert forall|j: int|
                    0 <= j < i + 1 && (#[trigger] map.entries_seq()[j]).1.workspaces_set().len()
                        >= min implies exists|idx: int|
                    0 <= idx < s.len() && (#[trigger] s[idx]).name@
                        == map.entries_seq()[j].0@ by {
                    if j == i {
                        assert(s[k as int].name@ == map.entries_seq()[j].0@);
                    } else {
                        let idx = choose|idx: int|
                            0 <= idx < old_rows.len() && old_rows[idx].name@
                                == map.entries_seq()[j].0@;
                        if idx < k {
                            assert(s[idx] == old_rows[idx]);
                        } else {
                            assert(s[idx + 1] == old_rows[idx]);
                        }
                    }
                }
            }
        } else {
            proof {
                assert(map.entries_seq()[i as int].1.workspaces_set().len() < min);
            }
        }
        i += 1;
    }
    proof {
        assert forall|k: Seq<char>|
            map@.dom().contains(k) && map@[k].1.len() >= min implies exists|idx: int|
            0 <= idx < rows@.len() && (#[trigger] rows@[idx]).name@ == k by {
            map.lemma_index_of_valid(k);
            let j = map.spec_index_of(k);
            map.lemma_entry_view(j);
        }
    }
    rows
}

} // verus!
