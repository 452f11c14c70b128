//! Aggregation and export shapes: the shared result store, the flattened
//! finding set, the tabular rows, and the derived frequency summary. The
//! serialization and the file writes are the caller's part; everything the
//! artifacts say — every count, every ordering — is computed and proved
//! here.
use crate::text::dec_rep;
use crate::text::str_eq;
use crate::text::u64_to_string;
use crate::DeriveStatement;
use crate::DeriveStatementView;
use vstd::prelude::*;
use vstd::string::StringExecFns;

verus! {

/// How often `key` occurs in `items`.
pub open spec fn occurrences(items: Seq<Seq<char>>, key: Seq<char>) -> nat
    decreases items.len(),
{
    if items.len() == 0 {
        0
    } else {
        occurrences(items.drop_last(), key) + if items.last() == key {
            1nat
        } else {
            0nat
        }
    }
}

pub proof fn lemma_occurrences_bound(items: Seq<Seq<char>>, key: Seq<char>)
    ensures
        occurrences(items, key) <= items.len(),
    decreases items.len(),
{
    if items.len() > 0 {
        lemma_occurrences_bound(items.drop_last(), key);
    }
}

proof fn lemma_occurrences_push(items: Seq<Seq<char>>, key: Seq<char>, x: Seq<char>)
    ensures
        occurrences(items.push(x), key) == occurrences(items, key) + if x == key {
            1nat
        } else {
            0nat
        },
{
    assert(items.push(x).drop_last() =~= items);
    assert(items.push(x).last() == x);
}

/// How many distinct values occur in `items`.
pub open spec fn num_distinct(items: Seq<Seq<char>>) -> nat
    decreases items.len(),
{
    if items.len() == 0 {
        0
    } else {
        num_distinct(items.drop_last()) + if occurrences(items.drop_last(), items.last()) > 0 {
            0nat
        } else {
            1nat
        }
    }
}

proof fn lemma_num_distinct_push(items: Seq<Seq<char>>, x: Seq<char>)
    ensures
        num_distinct(items.push(x)) == num_distinct(items) + if occurrences(items, x) > 0 {
            0nat
        } else {
            1nat
        },
{
    assert(items.push(x).drop_last() =~= items);
    assert(items.push(x).last() == x);
}

/// One line of a frequency table: a value and how often it occurred.
pub struct CountEntry {
    pub name: String,
    pub count: usize,
}

/// An entry for `key` exists.
pub open spec fn entry_for(es: Seq<CountEntry>, key: Seq<char>) -> bool {
    exists|i: int| 0 <= i < es.len() && (#[trigger] es[i]).name@ == key
}

/// A correct frequency table for `items`: distinct keys, every count the
/// key's exact number of occurrences, and a line for every occurring key.
pub open spec fn tally_ok(items: Seq<Seq<char>>, es: Seq<CountEntry>) -> bool {
    &&& forall|i: int, j: int|
        0 <= i < j < es.len() ==> (#[trigger] es[i]).name@ != (#[trigger] es[j]).name@
    &&& forall|i: int|
        0 <= i < es.len() ==> (#[trigger] es[i]).count == occurrences(items, es[i].name@)
            && es[i].count >= 1
    &&& forall|k: Seq<char>| #[trigger] occurrences(items, k) > 0 ==> entry_for(es, k)
}

/// The index of the entry for `key`, if one exists.
fn find_entry(es: &Vec<CountEntry>, key: &str) -> (r: Option<usize>)
    ensures
        match r {
            Some(j) => j < es@.len() && es@[j as int].name@ == key@,
            None => forall|i: int| 0 <= i < es@.len() ==> (#[trigger] es@[i]).name@ != key@,
        },
{
    let mut i: usize = 0;
    while i < es.len()
        invariant
            0 <= i <= es@.len(),
            forall|k: int| 0 <= k < i ==> (#[trigger] es@[k]).name@ != key@,
        decreases es@.len() - i,
    {
        if str_eq(es[i].name.as_str(), key) {
            return Some(i);
        }
        i += 1;
    }
    None
}

/// Count how often each value occurs, first occurrence first.
pub fn tally(items: &Vec<String>) -> (r: Vec<CountEntry>)
    ensures
        tally_ok(items.deep_view(), r@),
        r@.len() == num_distinct(items.deep_view()),
{
    let ghost dv = items.deep_view();
    let mut r: Vec<CountEntry> = Vec::new();
    let mut i: usize = 0;
    proof {
        assert(dv.take(0) =~= Seq::<Seq<char>>::empty());
    }
    while i < items.len()
        invariant
            0 <= i <= items@.len(),
            dv == items.deep_view(),
            dv.len() == items@.len(),
            tally_ok(dv.take(i as int), r@),
            r@.len() == num_distinct(dv.take(i as int)),
        decreases items@.len() - i,
    {
        let ghost processed = dv.take(i as int);
        let ghost x = dv[i as int];
        proof {
            assert(dv.take(i + 1) =~= processed.push(x));
            assert(items.deep_view()[i as int] == items@[i as int]@);
            lemma_occurrences_push(processed, x, x);
            lemma_num_distinct_push(processed, x);
            lemma_occurrences_bound(processed, x);
        }
        match find_entry(&r, items[i].as_str()) {
            Some(j) => {
                proof {
                    assert(r@[j as int].count == occurrences(processed, x));
                    assert(occurrences(processed, x) >= 1);
                }
                let c = r[j].count;
                let ghost r_old = r@;
                r[j].count = c + 1;
                proof {
                    assert(r@ =~= r_old.update(j as int, r@[j as int]));
                    assert(r@[j as int].name == r_old[j as int].name);
                    assert(r@[j as int].count == c + 1);
                    assert forall|a: int, b: int|
                        0 <= a < b < r@.len() implies (#[trigger] r@[a]).name@
                        != (#[trigger] r@[b]).name@ by {
                        assert(r@[a].name@ == r_old[a].name@);
                        assert(r@[b].name@ == r_old[b].name@);
                    }
                    assert forall|a: int|
                        0 <= a < r@.len() implies (#[trigger] r@[a]).count == occurrences(
                        processed.push(x),
                        r@[a].name@,
                    ) && r@[a].count >= 1 by {
                        lemma_occurrences_push(processed, r_old[a].name@, x);
                        if a == j {
                        } else {
                            assert(r@[a] == r_old[a]);
                            assert(r_old[a].name@ != r_old[j as int].name@ || r_old[j as int].name@
                                != r_old[a].name@ || a == j);
                            if r_old[a].name@ == x {
                                assert(r_old[j as int].name@ == x);
                                if a < j {
                                    assert(r_old[a].name@ != r_old[j as int].name@);
                                } else {
                                    assert(r_old[j as int].name@ != r_old[a].name@);
                                }
                                assert(false);
                            }
                        }
                    }
                    assert forall|k: Seq<char>|
                        #[trigger] occurrences(processed.push(x), k) > 0 implies entry_for(
                        r@,
                        k,
                    ) by {
                        lemma_occurrences_push(processed, k, x);
                        if k == x {
                            assert(r@[j as int].name@ == k);
                        } else {
                            assert(occurrences(processed, k) > 0);
                            assert(entry_for(r_old, k));
                            let w = choose|w: int|
                                0 <= w < r_old.len() && (#[trigger] r_old[w]).name@ == k;
                            assert(r@[w].name@ == k);
                        }
                    }
                }
            },
            None => {
                proof {
                    if occurrences(processed, x) > 0 {
                        assert(entry_for(r@, x));
                        let w = choose|w: int|
                            0 <= w < r@.len() && (#[trigger] r@[w]).name@ == x;
                        assert(false);
                    }
                }
                let ghost r_old = r@;
                let entry = CountEntry { name: items[i].clone(), count: 1 };
                r.push(entry);
                proof {
                    let n = r_old.len() as int;
                    assert(r@[n].name@ == x);
                    assert(r@[n].count == 1);
                    assert forall|a: int, b: int|
                        0 <= a < b < r@.len() implies (#[trigger] r@[a]).name@
                        != (#[trigger] r@[b]).name@ by {
                        if b < n {
                            assert(r@[a] == r_old[a]);
                            assert(r@[b] == r_old[b]);
                        } else {
                            assert(r@[a] == r_old[a]);
                            if r_old[a].name@ == x {
                                assert(r_old[a].count == occurrences(processed, x));
                                assert(false);
                            }
                        }
                    }
                    assert forall|a: int|
                        0 <= a < r@.len() implies (#[trigger] r@[a]).count == occurrences(
                        processed.push(x),
                        r@[a].name@,
                    ) && r@[a].count >= 1 by {
                        lemma_occurrences_push(processed, r@[a].name@, x);
                        if a < n {
                            assert(r@[a] == r_old[a]);
                            if r_old[a].name@ == x {
                                assert(r_old[a].count == occurrences(processed, x));
                                assert(false);
                            }
                        }
                    }
                    assert forall|k: Seq<char>|
                        #[trigger] occurrences(processed.push(x), k) > 0 implies entry_for(
                        r@,
                        k,
                    ) by {
                        lemma_occurrences_push(processed, k, x);
                        if k == x {
                            assert(r@[n].name@ == k);
                        } else {
                            assert(occurrences(processed, k) > 0);
                            assert(entry_for(r_old, k));
                            let w = choose|w: int|
                                0 <= w < r_old.len() && (#[trigger] r_old[w]).name@ == k;
                            assert(r@[w].name@ == k);
                        }
                    }
                }
            },
        }
        i += 1;
    }
    proof {
        assert(dv.take(dv.len() as int) =~= dv);
    }
    r
}

} // verus!

verus! {

/// Relies on chrono's Utc::now and to_rfc3339: the current UTC time in
/// RFC 3339 text. Nothing is assumed of the value.
#[verifier::external_body]
fn utc_now_rfc3339() -> String {
    chrono::Utc::now().to_rfc3339()
}

/// Every identifier of every finding, in finding order, duplicates kept.
pub open spec fn all_identifiers(ds: Seq<DeriveStatementView>) -> Seq<Seq<char>>
    decreases ds.len(),
{
    if ds.len() == 0 {
        seq![]
    } else {
        ds[0].derives + all_identifiers(ds.drop_first())
    }
}

/// The repository of each finding, in finding order.
pub open spec fn repo_names(ds: Seq<DeriveStatementView>) -> Seq<Seq<char>>
    decreases ds.len(),
{
    if ds.len() == 0 {
        seq![]
    } else {
        seq![ds[0].repository] + repo_names(ds.drop_first())
    }
}

proof fn lemma_all_identifiers_skip(ds: Seq<DeriveStatementView>, i: int)
    requires
        0 <= i < ds.len(),
    ensures
        all_identifiers(ds.skip(i)) == ds[i].derives + all_identifiers(ds.skip(i + 1)),
{
    assert(ds.skip(i).drop_first() =~= ds.skip(i + 1));
    assert(ds.skip(i)[0] == ds[i]);
}

proof fn lemma_repo_names_skip(ds: Seq<DeriveStatementView>, i: int)
    requires
        0 <= i < ds.len(),
    ensures
        repo_names(ds.skip(i)) == seq![ds[i].repository] + repo_names(ds.skip(i + 1)),
{
    assert(ds.skip(i).drop_first() =~= ds.skip(i + 1));
    assert(ds.skip(i)[0] == ds[i]);
}

/// Copy out every identifier of every finding, in order.
fn collect_identifiers(derives: &Vec<DeriveStatement>) -> (r: Vec<String>)
    ensures
        r.deep_view() == all_identifiers(derives.deep_view()),
{
    let ghost dv = derives.deep_view();
    let mut out: Vec<String> = Vec::new();
    let mut i: usize = 0;
    proof {
        assert(dv.skip(0) =~= dv);
        assert(out.deep_view() =~= Seq::<Seq<char>>::empty());
        assert(out.deep_view() + all_identifiers(dv) =~= all_identifiers(dv));
    }
    while i < derives.len()
        invariant
            0 <= i <= derives@.len(),
            dv == derives.deep_view(),
            dv.len() == derives@.len(),
            all_identifiers(dv) == out.deep_view() + all_identifiers(dv.skip(i as int)),
        decreases derives@.len() - i,
    {
        proof {
            lemma_all_identifiers_skip(dv, i as int);
            assert(dv[i as int].derives == derives@[i as int].derives.deep_view());
        }
        let d = &derives[i];
        let mut j: usize = 0;
        while j < d.derives.len()
            invariant
                0 <= j <= d.derives@.len(),
                d == &derives@[i as int],
                0 <= i < derives@.len(),
                dv == derives.deep_view(),
                dv.len() == derives@.len(),
                all_identifiers(dv) == out.deep_view() + dv[i as int].derives.skip(j as int)
                    + all_identifiers(dv.skip(i + 1)),
                dv[i as int].derives == derives@[i as int].derives.deep_view(),
            decreases d.derives@.len() - j,
        {
            let ghost rest = dv[i as int].derives.skip(j as int);
            let x = d.derives[j].clone();
            let ghost out_old = out.deep_view();
            out.push(x);
            proof {
                assert(out.deep_view() =~= out_old.push(dv[i as int].derives[j as int]));
                assert(rest =~= seq![dv[i as int].derives[j as int]] + dv[i as int].derives.skip(
                    j + 1,
                ));
                assert(out_old + rest + all_identifiers(dv.skip(i + 1)) =~= out.deep_view()
                    + dv[i as int].derives.skip(j + 1) + all_identifiers(dv.skip(i + 1)));
            }
            j += 1;
        }
        proof {
            assert(dv[i as int].derives.skip(dv[i as int].derives.len() as int)
                =~= Seq::<Seq<char>>::empty());
            assert(out.deep_view() + Seq::<Seq<char>>::empty() + all_identifiers(dv.skip(i + 1))
                =~= out.deep_view() + all_identifiers(dv.skip(i + 1)));
        }
        i += 1;
    }
    proof {
        assert(all_identifiers(dv.skip(dv.len() as int)) =~= Seq::<Seq<char>>::empty());
        assert(out.deep_view() + Seq::<Seq<char>>::empty() =~= out.deep_view());
    }
    out
}

/// Copy out the repository of each finding, in order.
fn collect_repositories(derives: &Vec<DeriveStatement>) -> (r: Vec<String>)
    ensures
        r.deep_view() == repo_names(derives.deep_view()),
{
    let ghost dv = derives.deep_view();
    let mut out: Vec<String> = Vec::new();
    let mut i: usize = 0;
    proof {
        assert(dv.skip(0) =~= dv);
        assert(out.deep_view() =~= Seq::<Seq<char>>::empty());
        assert(out.deep_view() + repo_names(dv) =~= repo_names(dv));
    }
    while i < derives.len()
        invariant
            0 <= i <= derives@.len(),
            dv == derives.deep_view(),
            dv.len() == derives@.len(),
            repo_names(dv) == out.deep_view() + repo_names(dv.skip(i as int)),
        decreases derives@.len() - i,
    {
        proof {
            lemma_repo_names_skip(dv, i as int);
        }
        let x = derives[i].repository.clone();
        let ghost out_old = out.deep_view();
        out.push(x);
        proof {
            assert(out.deep_view() =~= out_old.push(dv[i as int].repository));
            assert(out_old + (seq![dv[i as int].repository] + repo_names(dv.skip(i + 1)))
                =~= out.deep_view() + repo_names(dv.skip(i + 1)));
        }
        i += 1;
    }
    proof {
        assert(repo_names(dv.skip(dv.len() as int)) =~= Seq::<Seq<char>>::empty());
        assert(out.deep_view() + Seq::<Seq<char>>::empty() =~= out.deep_view());
    }
    out
}

} // verus!

verus! {

/// Counts never increase along the table.
pub open spec fn sorted_desc(s: Seq<CountEntry>) -> bool {
    forall|i: int, j: int|
        0 <= i <= j < s.len() ==> (#[trigger] s[i]).count >= (#[trigger] s[j]).count
}

/// Order a frequency table by count, largest first, as a permutation.
fn sort_by_count_desc(v: Vec<CountEntry>) -> (r: Vec<CountEntry>)
    ensures
        r@.to_multiset() == v@.to_multiset(),
        r@.len() == v@.len(),
        sorted_desc(r@),
{
    let ghost orig = v@;
    let mut src = v;
    let mut out: Vec<CountEntry> = Vec::new();
    proof {
        broadcast use vstd::seq_lib::group_to_multiset_ensures;
        broadcast use vstd::multiset::group_multiset_axioms;

        assert(out@.to_multiset().add(src@.to_multiset()) =~= orig.to_multiset());
    }
    while src.len() > 0
        invariant
            out@.len() + src@.len() == orig.len(),
            out@.to_multiset().add(src@.to_multiset()) == orig.to_multiset(),
            sorted_desc(out@),
            forall|a: int, b: int|
                0 <= a < out@.len() && 0 <= b < src@.len() ==> (#[trigger] out@[a]).count
                    >= (#[trigger] src@[b]).count,
        decreases src@.len(),
    {
        let mut m: usize = 0;
        let mut j: usize = 1;
        while j < src.len()
            invariant
                0 <= m < j <= src@.len(),
                forall|k: int| 0 <= k < j ==> src@[m as int].count >= (#[trigger] src@[k]).count,
            decreases src@.len() - j,
        {
            if src[j].count > src[m].count {
                m = j;
            }
            j += 1;
        }
        let ghost src_old = src@;
        let ghost out_old = out@;
        let e = src.remove(m);
        out.push(e);
        proof {
            broadcast use vstd::seq_lib::group_to_multiset_ensures;
            broadcast use vstd::multiset::group_multiset_axioms;

            assert(src@ == src_old.remove(m as int));
            assert(src@.to_multiset() =~= src_old.to_multiset().remove(src_old[m as int]));
            assert(out@ == out_old.push(e));
            assert(out@.to_multiset() =~= out_old.to_multiset().insert(e));
            assert(src_old.to_multiset().count(e) > 0) by {
                assert(src_old.contains(e));
            }
            assert(out@.to_multiset().add(src@.to_multiset()) =~= out_old.to_multiset().add(
                src_old.to_multiset(),
            ));
            assert forall|a: int, b: int|
                0 <= a < out@.len() && 0 <= b < src@.len() implies (#[trigger] out@[a]).count
                >= (#[trigger] src@[b]).count by {
                if b < m {
                    assert(src@[b] == src_old[b]);
                } else {
                    assert(src@[b] == src_old[b + 1]);
                }
                if a < out_old.len() {
                    assert(out@[a] == out_old[a]);
                } else {
                    assert(out@[a] == e);
                }
                assert(e.count >= src_old[b].count && e.count >= src_old[b + 1].count) by {
                    assert(src_old[m as int].count >= (src_old[b]).count);
                    assert(src_old[m as int].count >= (src_old[b + 1]).count);
                }
            }
            assert forall|a: int, b: int|
                0 <= a <= b < out@.len() implies (#[trigger] out@[a]).count
                >= (#[trigger] out@[b]).count by {
                if b < out_old.len() {
                    assert(out@[a] == out_old[a] && out@[b] == out_old[b]);
                } else if a < out_old.len() {
                    assert(out@[a] == out_old[a] && out@[b] == e);
                    assert(out_old[a].count >= src_old[m as int].count);
                }
            }
        }
    }
    proof {
        broadcast use vstd::seq_lib::group_to_multiset_ensures;
        broadcast use vstd::multiset::group_multiset_axioms;

        assert(src@.to_multiset().len() == 0);
        assert(out@.to_multiset().add(src@.to_multiset()) =~= out@.to_multiset());
    }
    out
}

/// A frequency table as the summary publishes it: the twenty most frequent
/// values of `items`, counts exact, ordered by count descending, and no
/// left-out value more frequent than the published ones.
pub open spec fn table_ok(items: Seq<Seq<char>>, es: Seq<CountEntry>) -> bool {
    &&& sorted_desc(es)
    &&& es.len() == if num_distinct(items) < 20 {
        num_distinct(items)
    } else {
        20
    }
    &&& forall|i: int, j: int|
        0 <= i < j < es.len() ==> (#[trigger] es[i]).name@ != (#[trigger] es[j]).name@
    &&& forall|i: int|
        0 <= i < es.len() ==> (#[trigger] es[i]).count == occurrences(items, es[i].name@)
            && es[i].count >= 1
    &&& forall|k: Seq<char>|
        #[trigger] occurrences(items, k) > 0 && !entry_for(es, k) ==> es.len() == 20
            && occurrences(items, k) <= es[19].count
}

/// The top-twenty frequency table of `items`, with how many distinct
/// values occurred in all.
#[verifier::rlimit(60)]
fn top_table(items: &Vec<String>) -> (r: (Vec<CountEntry>, usize))
    ensures
        table_ok(items.deep_view(), r.0@),
        r.1 == num_distinct(items.deep_view()),
{
    let ghost iv = items.deep_view();
    let t = tally(items);
    let unique = t.len();
    let ghost tv = t@;
    let full = sort_by_count_desc(t);
    proof {
        broadcast use vstd::seq_lib::group_to_multiset_ensures;
        broadcast use vstd::multiset::group_multiset_axioms;

        assert forall|i: int| 0 <= i < full@.len() implies exists|j: int|
            0 <= j < tv.len() && #[trigger] full@[i] == tv[j] by {
            assert(full@.contains(full@[i]));
            assert(full@.to_multiset().count(full@[i]) > 0);
            assert(tv.to_multiset().count(full@[i]) > 0);
            assert(tv.contains(full@[i]));
            let j = choose|j: int| 0 <= j < tv.len() && tv[j] == full@[i];
            assert(full@[i] == tv[j]);
        }
        assert forall|j: int| 0 <= j < tv.len() implies exists|i: int|
            0 <= i < full@.len() && #[trigger] tv[j] == full@[i] by {
            assert(tv.contains(tv[j]));
            assert(tv.to_multiset().count(tv[j]) > 0);
            assert(full@.to_multiset().count(tv[j]) > 0);
            assert(full@.contains(tv[j]));
            let i = choose|i: int| 0 <= i < full@.len() && full@[i] == tv[j];
            assert(tv[j] == full@[i]);
        }
        // counts and presence carry over from the tally to its permutation
        assert forall|i: int|
            0 <= i < full@.len() implies (#[trigger] full@[i]).count == occurrences(
            iv,
            full@[i].name@,
        ) && full@[i].count >= 1 by {
            let j = choose|j: int| 0 <= j < tv.len() && #[trigger] full@[i] == tv[j];
            assert(tv[j].count == occurrences(iv, tv[j].name@));
        }
        // the tally has pairwise distinct entries, so the permutation does too
        assert(tv.no_duplicates()) by {
            assert forall|a: int, b: int|
                0 <= a < tv.len() && 0 <= b < tv.len() && a != b implies tv[a] != tv[b] by {
                if a < b {
                    assert(tv[a].name@ != tv[b].name@);
                } else {
                    assert(tv[b].name@ != tv[a].name@);
                }
            }
        }
        tv.lemma_multiset_has_no_duplicates();
        full@.lemma_multiset_has_no_duplicates_conv();
        assert forall|i: int, j: int|
            0 <= i < j < full@.len() implies (#[trigger] full@[i]).name@
            != (#[trigger] full@[j]).name@ by {
            if full@[i].name@ == full@[j].name@ {
                let a = choose|a: int| 0 <= a < tv.len() && #[trigger] full@[i] == tv[a];
                let b = choose|b: int| 0 <= b < tv.len() && #[trigger] full@[j] == tv[b];
                if a != b {
                    if a < b {
                        assert(tv[a].name@ != tv[b].name@);
                    } else {
                        assert(tv[b].name@ != tv[a].name@);
                    }
                } else {
                    assert(full@[i] == full@[j]);
                    assert(full@.no_duplicates());
                }
                assert(false);
            }
        }
        assert forall|k: Seq<char>| #[trigger] occurrences(iv, k) > 0 implies entry_for(
            full@,
            k,
        ) by {
            assert(entry_for(tv, k));
            let j = choose|j: int| 0 <= j < tv.len() && (#[trigger] tv[j]).name@ == k;
            let i = choose|i: int| 0 <= i < full@.len() && #[trigger] tv[j] == full@[i];
            assert(full@[i].name@ == k);
        }
    }
    let ghost fullv = full@;
    let mut top = full;
    top.truncate(20);
    proof {
        if fullv.len() > 20 {
            assert(top@ == fullv.subrange(0, 20));
        } else {
            assert(top@ == fullv);
        }
        assert forall|k: Seq<char>|
            #[trigger] occurrences(iv, k) > 0 && !entry_for(top@, k) implies top@.len() == 20
            && occurrences(iv, k) <= top@[19].count by {
            let w = choose|w: int| 0 <= w < fullv.len() && (#[trigger] fullv[w]).name@ == k;
            if w < top@.len() {
                assert(top@[w].name@ == k);
                assert(false);
            }
            assert(fullv.len() > 20);
            assert(top@[19] == fullv[19]);
            assert(fullv[19].count >= fullv[w].count);
            assert(fullv[w].count == occurrences(iv, k));
        }
    }
    (top, unique)
}

} // verus!

verus! {

/// The derived frequency summary: totals, the two top-twenty tables, and
/// when it was produced.
pub struct AnalysisSummary {
    pub total_derive_statements: usize,
    pub total_repositories: usize,
    pub total_unique_derives: usize,
    pub most_common_derives: Vec<CountEntry>,
    pub repositories_by_derive_count: Vec<CountEntry>,
    pub analysis_timestamp: String,
}

/// The identifiers joined as one cell: comma and space between them.
pub open spec fn join_commaspace(parts: Seq<Seq<char>>) -> Seq<char>
    decreases parts.len(),
{
    if parts.len() == 0 {
        Seq::empty()
    } else if parts.len() == 1 {
        parts[0]
    } else {
        join_commaspace(parts.drop_last()) + ", "@ + parts.last()
    }
}

/// Join strings with a comma and a space.
fn join_with_commaspace(parts: &Vec<String>) -> (r: String)
    ensures
        r@ == join_commaspace(parts.deep_view()),
{
    let ghost dv = parts.deep_view();
    let mut s = String::new();
    let mut i: usize = 0;
    proof {
        assert(join_commaspace(dv.take(0)) =~= Seq::<char>::empty());
    }
    while i < parts.len()
        invariant
            0 <= i <= parts@.len(),
            dv == parts.deep_view(),
            dv.len() == parts@.len(),
            s@ == join_commaspace(dv.take(i as int)),
        decreases parts@.len() - i,
    {
        if i > 0 {
            s.append(", ");
        }
        s.append(parts[i].as_str());
        proof {
            let t = dv.take(i + 1);
            assert(t.drop_last() =~= dv.take(i as int));
            assert(t.last() == dv[i as int]);
            assert(dv[i as int] == parts@[i as int]@);
            if i == 0 {
                assert(s@ == Seq::<char>::empty() + parts@[0int]@) by {
                    assert(Seq::<char>::empty() + parts@[0int]@ =~= parts@[0int]@);
                }
                assert(join_commaspace(t) == t[0]);
            }
        }
        i += 1;
    }
    proof {
        assert(dv.take(dv.len() as int) =~= dv);
    }
    s
}

/// One data row of the tabular dump.
pub open spec fn csv_row(d: DeriveStatementView) -> Seq<Seq<char>> {
    seq![
        d.repository,
        d.file_path,
        dec_rep(d.line_number as nat),
        join_commaspace(d.derives),
        d.full_line,
    ]
}

/// Writes the collected findings out in the run's three shapes; the rows
/// and the summary are computed here, the caller serializes them.
pub struct ResultsPersistence;

impl ResultsPersistence {
    /// The rows of the tabular dump: one header row, then one row per
    /// finding, in order.
    pub fn csv_records(derives: &Vec<DeriveStatement>) -> (r: Vec<Vec<String>>)
        ensures
            r@.len() == derives@.len() + 1,
            r@[0].deep_view() =~= seq![
                "repository"@,
                "file_path"@,
                "line_number"@,
                "derives"@,
                "full_line"@,
            ],
            forall|i: int|
                0 <= i < derives@.len() ==> (#[trigger] r@[i + 1]).deep_view() == csv_row(
                    derives.deep_view()[i],
                ),
    {
        let mut r: Vec<Vec<String>> = Vec::new();
        let mut header: Vec<String> = Vec::new();
        header.push(String::from_str("repository"));
        header.push(String::from_str("file_path"));
        header.push(String::from_str("line_number"));
        header.push(String::from_str("derives"));
        header.push(String::from_str("full_line"));
        proof {
            assert(header.deep_view() =~= seq![
                "repository"@,
                "file_path"@,
                "line_number"@,
                "derives"@,
                "full_line"@,
            ]);
        }
        r.push(header);
        let mut i: usize = 0;
        while i < derives.len()
            invariant
                0 <= i <= derives@.len(),
                r@.len() == i + 1,
                r@[0].deep_view() =~= seq![
                    "repository"@,
                    "file_path"@,
                    "line_number"@,
                    "derives"@,
                    "full_line"@,
                ],
                forall|k: int|
                    0 <= k < i ==> (#[trigger] r@[k + 1]).deep_view() == csv_row(
                        derives.deep_view()[k],
                    ),
            decreases derives@.len() - i,
        {
            let d = &derives[i];
            let mut row: Vec<String> = Vec::new();
            row.push(d.repository.clone());
            row.push(d.file_path.clone());
            row.push(u64_to_string(d.line_number as u64));
            row.push(join_with_commaspace(&d.derives));
            row.push(d.full_line.clone());
            proof {
                assert(derives.deep_view()[i as int] == derives@[i as int].deep_view());
                assert(row.deep_view() =~= csv_row(derives.deep_view()[i as int]));
            }
            let ghost r_old = r@;
            r.push(row);
            proof {
                assert(r@[0] == r_old[0]);
                assert forall|k: int|
                    0 <= k < i + 1 implies (#[trigger] r@[k + 1]).deep_view() == csv_row(
                    derives.deep_view()[k],
                ) by {
                    if k < i {
                        assert(r@[k + 1] == r_old[k + 1]);
                    }
                }
            }
            i += 1;
        }
        r
    }

    /// The derived summary of the whole finding set: the total number of
    /// findings, how many repositories and distinct identifiers occur, and
    /// the two exact top-twenty tables, ordered by count descending.
    pub fn build_summary(derives: &Vec<DeriveStatement>) -> (r: AnalysisSummary)
        ensures
            r.total_derive_statements == derives@.len(),
            r.total_unique_derives == num_distinct(all_identifiers(derives.deep_view())),
            r.total_repositories == num_distinct(repo_names(derives.deep_view())),
            table_ok(all_identifiers(derives.deep_view()), r.most_common_derives@),
            table_ok(repo_names(derives.deep_view()), r.repositories_by_derive_count@),
    {
        let ids = collect_identifiers(derives);
        let repos = collect_repositories(derives);
        let id_table = top_table(&ids);
        let repo_table = top_table(&repos);
        AnalysisSummary {
            total_derive_statements: derives.len(),
            total_repositories: repo_table.1,
            total_unique_derives: id_table.1,
            most_common_derives: id_table.0,
            repositories_by_derive_count: repo_table.0,
            analysis_timestamp: utc_now_rfc3339(),
        }
    }
}

/// The findings of every completed repository, in append order.
pub open spec fn results_derives(rs: Seq<crate::parallel_processor::RepositoryResult>) -> Seq<
    DeriveStatementView,
>
    decreases rs.len(),
{
    if rs.len() == 0 {
        seq![]
    } else {
        rs[0].derive_statements.deep_view() + results_derives(rs.drop_first())
    }
}

proof fn lemma_results_derives_skip(rs: Seq<crate::parallel_processor::RepositoryResult>, i: int)
    requires
        0 <= i < rs.len(),
    ensures
        results_derives(rs.skip(i)) == rs[i].derive_statements.deep_view() + results_derives(
            rs.skip(i + 1),
        ),
{
    assert(rs.skip(i).drop_first() =~= rs.skip(i + 1));
    assert(rs.skip(i)[0] == rs[i]);
}

/// The shared, append-only store of per-repository results. The caller
/// guards it with its mutual-exclusion boundary; the bookkeeping is here.
pub struct ResultsStore {
    results: Vec<crate::parallel_processor::RepositoryResult>,
}

impl ResultsStore {
    pub closed spec fn results_spec(&self) -> Seq<crate::parallel_processor::RepositoryResult> {
        self.results@
    }

    pub fn new() -> (r: Self)
        ensures
            r.results_spec() == Seq::<crate::parallel_processor::RepositoryResult>::empty(),
    {
        ResultsStore { results: Vec::new() }
    }

    /// Append one completed repository's result. Results are never removed
    /// or changed.
    pub fn append(&mut self, result: crate::parallel_processor::RepositoryResult)
        ensures
            final(self).results_spec() == old(self).results_spec().push(result),
    {
        self.results.push(result);
    }

    /// How many repositories have completed.
    pub fn result_count(&self) -> (r: usize)
        ensures
            r == self.results_spec().len(),
    {
        self.results.len()
    }

    /// The full current finding set across all completed repositories, in
    /// append order: what each checkpoint artifact holds.
    pub fn all_derives(&self) -> (r: Vec<DeriveStatement>)
        ensures
            r.deep_view() == results_derives(self.results_spec()),
    {
        let ghost rv = self.results@;
        let mut out: Vec<DeriveStatement> = Vec::new();
        let mut i: usize = 0;
        proof {
            assert(rv.skip(0) =~= rv);
            assert(out.deep_view() =~= Seq::<DeriveStatementView>::empty());
            assert(out.deep_view() + results_derives(rv) =~= results_derives(rv));
        }
        while i < self.results.len()
            invariant
                0 <= i <= rv.len(),
                rv == self.results@,
                results_derives(rv) == out.deep_view() + results_derives(rv.skip(i as int)),
            decreases rv.len() - i,
        {
            proof {
                lemma_results_derives_skip(rv, i as int);
            }
            let ds = &self.results[i].derive_statements;
            let mut j: usize = 0;
            while j < ds.len()
                invariant
                    0 <= j <= ds@.len(),
                    ds == &rv[i as int].derive_statements,
                    0 <= i < rv.len(),
                    rv == self.results@,
                    results_derives(rv) == out.deep_view() + rv[i as int].derive_statements.deep_view().skip(
                        j as int,
                    ) + results_derives(rv.skip(i + 1)),
                decreases ds@.len() - j,
            {
                let ghost inner = rv[i as int].derive_statements.deep_view();
                let x = ds[j].clone();
                let ghost out_old = out.deep_view();
                out.push(x);
                proof {
                    assert(out.deep_view() =~= out_old.push(inner[j as int]));
                    assert(inner.skip(j as int) =~= seq![inner[j as int]] + inner.skip(j + 1));
                    assert(out_old + inner.skip(j as int) + results_derives(rv.skip(i + 1))
                        =~= out.deep_view() + inner.skip(j + 1) + results_derives(rv.skip(i + 1)));
                }
                j += 1;
            }
            proof {
                let inner = rv[i as int].derive_statements.deep_view();
                assert(inner.skip(inner.len() as int) =~= Seq::<DeriveStatementView>::empty());
                assert(out.deep_view() + Seq::<DeriveStatementView>::empty() + results_derives(
                    rv.skip(i + 1),
                ) =~= out.deep_view() + results_derives(rv.skip(i + 1)));
            }
            i += 1;
        }
        proof {
            assert(results_derives(rv.skip(rv.len() as int)) =~= Seq::<DeriveStatementView>::empty());
            assert(out.deep_view() + Seq::<DeriveStatementView>::empty() =~= out.deep_view());
        }
        out
    }
}

} // verus!

verus! {

impl ResultsStore {
    /// The repository of each completed result, in append order, for
    /// progress reporting.
    pub fn result_names(&self) -> (r: Vec<String>)
        ensures
            r@.len() == self.results_spec().len(),
            forall|i: int|
                0 <= i < r@.len() ==> (#[trigger] r@[i])@ == self.results_spec()[i].repo_name@,
    {
        let mut out: Vec<String> = Vec::new();
        let mut i: usize = 0;
        while i < self.results.len()
            invariant
                0 <= i <= self.results@.len(),
                out@.len() == i,
                forall|k: int|
                    0 <= k < i ==> (#[trigger] out@[k])@ == self.results@[k].repo_name@,
            decreases self.results@.len() - i,
        {
            let name = self.results[i].repo_name.clone();
            out.push(name);
            i += 1;
        }
        out
    }
}

} // verus!
