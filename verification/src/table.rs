//! The storage layer of the spatial map: association vectors sorted
//! strictly by an integer key, nested two levels deep.
//!
//! A [`Bucket`] is a sorted association vector from `i64` keys to values;
//! a [`Table`] is a sorted association vector from outer keys to non-empty
//! buckets. The table stands for a finite map from key pairs to values,
//! given by [`table_view`], and every operation here is specified against
//! that view.

use vstd::prelude::*;

verus! {

/// An association vector sorted strictly by key.
pub type Bucket<V> = Vec<(i64, V)>;

/// An association vector from outer keys to non-empty buckets, sorted
/// strictly by outer key.
pub type Table<V> = Vec<(i64, Bucket<V>)>;

/// Whether the keys of an association sequence are strictly increasing.
pub open spec fn assoc_sorted<V>(b: Seq<(i64, V)>) -> bool {
    forall|i: int, j: int| 0 <= i < j < b.len() ==> (#[trigger] b[i]).0 < (#[trigger] b[j]).0
}

/// The finite map an association sequence stands for; entries towards the
/// back override earlier ones, though sorted sequences have no duplicates.
pub open spec fn assoc_map<V>(b: Seq<(i64, V)>) -> Map<i64, V>
    decreases b.len(),
{
    if b.len() == 0 {
        Map::empty()
    } else {
        assoc_map(b.drop_last()).insert(b.last().0, b.last().1)
    }
}

/// The keys of `assoc_map` are exactly the keys occurring in the sequence.
pub proof fn lemma_assoc_map_contains<V>(b: Seq<(i64, V)>, k: i64)
    ensures
        assoc_map(b).contains_key(k) <==> exists|i: int| 0 <= i < b.len() && (#[trigger] b[i]).0 == k,
    decreases b.len(),
{
    if b.len() > 0 {
        lemma_assoc_map_contains(b.drop_last(), k);
        if assoc_map(b).contains_key(k) {
            if b.last().0 == k {
                assert((b[b.len() - 1]).0 == k);
            } else {
                let i = choose|i: int| 0 <= i < b.drop_last().len() && (#[trigger] b.drop_last()[i]).0 == k;
                assert((b[i]).0 == k);
            }
        }
        if exists|i: int| 0 <= i < b.len() && (#[trigger] b[i]).0 == k {
            let i = choose|i: int| 0 <= i < b.len() && (#[trigger] b[i]).0 == k;
            if i < b.len() - 1 {
                assert((b.drop_last()[i]).0 == k);
            }
        }
    }
}

/// In a sorted association sequence, each entry gives the value of its key.
pub proof fn lemma_assoc_map_index<V>(b: Seq<(i64, V)>, i: int)
    requires
        assoc_sorted(b),
        0 <= i < b.len(),
    ensures
        assoc_map(b).contains_key(b[i].0),
        assoc_map(b)[b[i].0] == b[i].1,
    decreases b.len(),
{
    if i < b.len() - 1 {
        assert(b[i].0 < b[b.len() - 1].0);
        assert(forall|a: int, c: int| 0 <= a < c < b.drop_last().len()
            ==> (#[trigger] b.drop_last()[a]).0 < (#[trigger] b.drop_last()[c]).0);
        lemma_assoc_map_index(b.drop_last(), i);
        assert(b.drop_last()[i] == b[i]);
    }
}

/// Inserting an entry at a position before every other occurrence of its
/// key inserts the binding into the map of the sequence.
pub proof fn lemma_assoc_map_insert<V>(b: Seq<(i64, V)>, idx: int, e: (i64, V))
    requires
        0 <= idx <= b.len(),
        forall|j: int| idx <= j < b.len() ==> (#[trigger] b[j]).0 != e.0,
    ensures
        assoc_map(b.insert(idx, e)) == assoc_map(b).insert(e.0, e.1),
    decreases b.len(),
{
    let new = b.insert(idx, e);
    if idx == b.len() {
        assert(new.drop_last() =~= b);
        assert(new.last() == e);
    } else {
        assert(new.last() == b.last());
        assert(new.drop_last() =~= b.drop_last().insert(idx, e));
        lemma_assoc_map_insert(b.drop_last(), idx, e);
        let lk = b.last().0;
        let lv = b.last().1;
        assert(lk != e.0);
        assert(assoc_map(b.drop_last()).insert(e.0, e.1).insert(lk, lv)
            =~= assoc_map(b.drop_last()).insert(lk, lv).insert(e.0, e.1));
    }
}

/// Replacing the entry of a key which occurs nowhere later in the sequence
/// replaces the binding in the map of the sequence.
pub proof fn lemma_assoc_map_update<V>(b: Seq<(i64, V)>, idx: int, e: (i64, V))
    requires
        0 <= idx < b.len(),
        b[idx].0 == e.0,
        forall|j: int| idx < j < b.len() ==> (#[trigger] b[j]).0 != e.0,
    ensures
        assoc_map(b.update(idx, e)) == assoc_map(b).insert(e.0, e.1),
    decreases b.len(),
{
    let new = b.update(idx, e);
    if idx == b.len() - 1 {
        assert(new.drop_last() =~= b.drop_last());
        assert(new.last() == e);
        assert(assoc_map(b.drop_last()).insert(e.0, e.1)
            =~= assoc_map(b.drop_last()).insert(b.last().0, b.last().1).insert(e.0, e.1));
    } else {
        assert(new.last() == b.last());
        assert(new.drop_last() =~= b.drop_last().update(idx, e));
        lemma_assoc_map_update(b.drop_last(), idx, e);
        let lk = b.last().0;
        let lv = b.last().1;
        assert(lk != e.0);
        assert(assoc_map(b.drop_last()).insert(e.0, e.1).insert(lk, lv)
            =~= assoc_map(b.drop_last()).insert(lk, lv).insert(e.0, e.1));
    }
}

/// Removing the only entry of a key removes the binding from the map of
/// the sequence.
pub proof fn lemma_assoc_map_remove<V>(b: Seq<(i64, V)>, idx: int)
    requires
        0 <= idx < b.len(),
        forall|j: int| 0 <= j < b.len() && j != idx ==> (#[trigger] b[j]).0 != b[idx].0,
    ensures
        assoc_map(b.remove(idx)) == assoc_map(b).remove(b[idx].0),
    decreases b.len(),
{
    let k = b[idx].0;
    let new = b.remove(idx);
    if idx == b.len() - 1 {
        assert(new =~= b.drop_last());
        lemma_assoc_map_contains(b.drop_last(), k);
        assert(forall|j: int| 0 <= j < b.drop_last().len() ==> (#[trigger] b.drop_last()[j]).0 != k);
        assert(!assoc_map(b.drop_last()).contains_key(k));
        assert(assoc_map(b.drop_last()).insert(k, b.last().1).remove(k) =~= assoc_map(b.drop_last()));
    } else {
        assert(new.last() == b.last());
        assert(new.drop_last() =~= b.drop_last().remove(idx));
        assert(b.drop_last()[idx] == b[idx]);
        lemma_assoc_map_remove(b.drop_last(), idx);
        let lk = b.last().0;
        let lv = b.last().1;
        assert(lk != k);
        assert(assoc_map(b.drop_last()).remove(k).insert(lk, lv)
            =~= assoc_map(b.drop_last()).insert(lk, lv).remove(k));
    }
}

/// The domain of the map of an association sequence is finite.
pub proof fn lemma_assoc_map_finite<V>(b: Seq<(i64, V)>)
    ensures
        assoc_map(b).dom().finite(),
    decreases b.len(),
{
    if b.len() > 0 {
        lemma_assoc_map_finite(b.drop_last());
    }
}

/// Finds the index of the given key by a linear scan.
pub(crate) fn assoc_find<V>(b: &Vec<(i64, V)>, k: i64) -> (r: Option<usize>)
    ensures
        match r {
            Some(i) => i < b@.len() && b@[i as int].0 == k,
            None => forall|j: int| 0 <= j < b@.len() ==> (#[trigger] b@[j]).0 != k,
        },
{
    let mut i: usize = 0;
    while i < b.len()
        invariant
            i <= b@.len(),
            forall|j: int| 0 <= j < i ==> (#[trigger] b@[j]).0 != k,
        decreases b@.len() - i,
    {
        if b[i].0 == k {
            return Some(i);
        }
        i = i + 1;
    }
    None
}

/// Finds the first index whose key is at least `k`, by a linear scan.
pub(crate) fn assoc_lower_bound<V>(b: &Vec<(i64, V)>, k: i64) -> (r: usize)
    requires
        assoc_sorted(b@),
    ensures
        r <= b@.len(),
        forall|j: int| 0 <= j < r ==> (#[trigger] b@[j]).0 < k,
        forall|j: int| r <= j < b@.len() ==> (#[trigger] b@[j]).0 >= k,
{
    let mut i: usize = 0;
    while i < b.len()
        invariant
            assoc_sorted(b@),
            i <= b@.len(),
            forall|j: int| 0 <= j < i ==> (#[trigger] b@[j]).0 < k,
        decreases b@.len() - i,
    {
        if b[i].0 >= k {
            return i;
        }
        i = i + 1;
    }
    b.len()
}

/// Well-formedness of a table: outer keys strictly sorted, every bucket
/// strictly sorted and non-empty.
pub open spec fn table_wf<V>(t: Seq<(i64, Bucket<V>)>) -> bool {
    &&& assoc_sorted(t)
    &&& forall|i: int| 0 <= i < t.len()
        ==> assoc_sorted((#[trigger] t[i]).1@) && t[i].1@.len() > 0
}

/// The finite map from key pairs `(outer, inner)` to values that a table
/// stands for.
pub open spec fn table_view<V>(t: Seq<(i64, Bucket<V>)>) -> Map<(i64, i64), V> {
    Map::new(
        |p: (i64, i64)|
            assoc_map(t).contains_key(p.0) && assoc_map(assoc_map(t)[p.0]@).contains_key(p.1),
        |p: (i64, i64)| assoc_map(assoc_map(t)[p.0]@)[p.1],
    )
}

/// Strict lexicographic order on key pairs.
pub open spec fn pair_lt(p: (i64, i64), q: (i64, i64)) -> bool {
    p.0 < q.0 || (p.0 == q.0 && p.1 < q.1)
}

/// The domain of the map a table stands for is finite.
pub proof fn lemma_table_view_finite<V>(t: Seq<(i64, Bucket<V>)>)
    requires
        forall|a: int, b: int| 0 <= a < b < t.len() ==> (#[trigger] t[a]).0 != (#[trigger] t[b]).0,
    ensures
        table_view(t).dom().finite(),
    decreases t.len(),
{
    if t.len() == 0 {
        assert(table_view(t).dom() =~= Set::<(i64, i64)>::empty()) by {
            assert forall|p: (i64, i64)| !table_view(t).dom().contains(p) by {
                lemma_assoc_map_contains(t, p.0);
            }
        }
    } else {
        let prefix = t.drop_last();
        let lk = t.last().0;
        let lb = t.last().1;
        lemma_table_view_finite(prefix);
        lemma_assoc_map_finite(lb@);
        let to_pair = |kk: i64| (lk, kk);
        let img = assoc_map(lb@).dom().map(to_pair);
        assoc_map(lb@).dom().lemma_map_finite(to_pair);
        lemma_assoc_map_contains(prefix, lk);
        assert(!assoc_map(prefix).contains_key(lk));
        assert(table_view(t).dom() =~= table_view(prefix).dom().union(img)) by {
            assert forall|p: (i64, i64)| table_view(t).dom().contains(p)
                implies table_view(prefix).dom().contains(p) || img.contains(p) by {
                if p.0 == lk {
                    assert(assoc_map(t)[lk] == lb);
                    assert(img.contains(to_pair(p.1)));
                    assert(to_pair(p.1) == p);
                }
            }
            assert forall|p: (i64, i64)| table_view(prefix).dom().contains(p) || img.contains(p)
                implies table_view(t).dom().contains(p) by {
                if img.contains(p) {
                    let kk = choose|kk: i64| assoc_map(lb@).dom().contains(kk) && to_pair(kk) == p;
                    assert(p.0 == lk && p.1 == kk);
                    assert(assoc_map(t)[lk] == lb);
                } else {
                    assert(p.0 != lk);
                }
            }
        }
    }
}

/// Inserts or replaces a binding in a sorted bucket.
pub(crate) fn bucket_put<V: Copy>(b: &mut Bucket<V>, k: i64, v: V) -> (old_v: Option<V>)
    requires
        assoc_sorted(old(b)@),
    ensures
        assoc_sorted(final(b)@),
        assoc_map(final(b)@) == assoc_map(old(b)@).insert(k, v),
        old_v == if assoc_map(old(b)@).contains_key(k) {
            Some(assoc_map(old(b)@)[k])
        } else {
            None::<V>
        },
        final(b)@.len() > 0,
        old_v is Some ==> final(b)@.len() == old(b)@.len(),
        old_v is None ==> final(b)@.len() == old(b)@.len() + 1,
{
    proof {
        lemma_assoc_map_contains(b@, k);
    }
    let idx = assoc_lower_bound(b, k);
    if idx < b.len() && b[idx].0 == k {
        let old_val = b[idx].1;
        proof {
            lemma_assoc_map_index(b@, idx as int);
        }
        b[idx] = (k, v);
        proof {
            lemma_assoc_map_update(old(b)@, idx as int, (k, v));
            assert(assoc_sorted(b@)) by {
                assert forall|i: int, j: int| 0 <= i < j < b@.len()
                    implies (#[trigger] b@[i]).0 < (#[trigger] b@[j]).0 by {
                    assert(old(b)@[i].0 < old(b)@[j].0);
                }
            }
        }
        Some(old_val)
    } else {
        proof {
            assert(forall|j: int| 0 <= j < b@.len() ==> (#[trigger] b@[j]).0 != k);
        }
        b.insert(idx, (k, v));
        proof {
            lemma_assoc_map_insert(old(b)@, idx as int, (k, v));
            assert(assoc_sorted(b@)) by {
                assert forall|i: int, j: int| 0 <= i < j < b@.len()
                    implies (#[trigger] b@[i]).0 < (#[trigger] b@[j]).0 by {
                    if i < idx {
                        assert(b@[i] == old(b)@[i]);
                    } else if i > idx {
                        assert(b@[i] == old(b)@[i - 1]);
                    }
                    if j < idx {
                        assert(b@[j] == old(b)@[j]);
                    } else if j > idx {
                        assert(b@[j] == old(b)@[j - 1]);
                    }
                }
            }
        }
        None
    }
}

/// Removes a binding from a sorted bucket, if present.
pub(crate) fn bucket_del<V: Copy>(b: &mut Bucket<V>, k: i64) -> (old_v: Option<V>)
    requires
        assoc_sorted(old(b)@),
    ensures
        assoc_sorted(final(b)@),
        assoc_map(final(b)@) == assoc_map(old(b)@).remove(k),
        old_v == if assoc_map(old(b)@).contains_key(k) {
            Some(assoc_map(old(b)@)[k])
        } else {
            None::<V>
        },
        old_v is None ==> final(b)@ == old(b)@,
        old_v is Some ==> final(b)@.len() + 1 == old(b)@.len(),
{
    proof {
        lemma_assoc_map_contains(b@, k);
    }
    match assoc_find(b, k) {
        None => {
            proof {
                assert(assoc_map(b@).remove(k) =~= assoc_map(b@));
            }
            None
        },
        Some(i) => {
            let old_val = b[i].1;
            proof {
                lemma_assoc_map_index(b@, i as int);
            }
            b.remove(i);
            proof {
                lemma_assoc_map_remove(old(b)@, i as int);
                assert(assoc_sorted(b@)) by {
                    assert forall|a: int, c: int| 0 <= a < c < b@.len()
                        implies (#[trigger] b@[a]).0 < (#[trigger] b@[c]).0 by {
                        if a < i {
                            assert(b@[a] == old(b)@[a]);
                        } else {
                            assert(b@[a] == old(b)@[a + 1]);
                        }
                        if c < i {
                            assert(b@[c] == old(b)@[c]);
                        } else {
                            assert(b@[c] == old(b)@[c + 1]);
                        }
                    }
                }
            }
            Some(old_val)
        },
    }
}

/// Collects the entries of a sorted bucket whose keys are above the given
/// bound, in ascending key order.
pub(crate) fn bucket_tail<V: Copy>(b: &Bucket<V>, k: i64, incl: bool) -> (r: Vec<(i64, V)>)
    requires
        assoc_sorted(b@),
    ensures
        forall|a: int| 0 <= a < r@.len() ==> {
            &&& assoc_map(b@).contains_key((#[trigger] r@[a]).0)
            &&& assoc_map(b@)[r@[a].0] == r@[a].1
            &&& if incl { r@[a].0 >= k } else { r@[a].0 > k }
        },
        forall|a: int, c: int| 0 <= a < c < r@.len()
            ==> (#[trigger] r@[a]).0 < (#[trigger] r@[c]).0,
        forall|j: i64| assoc_map(b@).contains_key(j) && (if incl { j >= k } else { j > k })
            ==> exists|a: int| 0 <= a < r@.len() && (#[trigger] r@[a]).0 == j,
{
    let mut r: Vec<(i64, V)> = Vec::new();
    let mut bi: usize = 0;
    while bi < b.len()
        invariant
            assoc_sorted(b@),
            bi <= b@.len(),
            forall|a: int| 0 <= a < r@.len() ==> {
                &&& assoc_map(b@).contains_key((#[trigger] r@[a]).0)
                &&& assoc_map(b@)[r@[a].0] == r@[a].1
                &&& if incl { r@[a].0 >= k } else { r@[a].0 > k }
            },
            forall|a: int| 0 <= a < r@.len()
                ==> exists|c: int| 0 <= c < bi && b@[c] == (#[trigger] r@[a]),
            forall|a: int, c: int| 0 <= a < c < r@.len()
                ==> (#[trigger] r@[a]).0 < (#[trigger] r@[c]).0,
            forall|c: int| 0 <= c < bi
                && (if incl { (#[trigger] b@[c]).0 >= k } else { b@[c].0 > k })
                ==> exists|a: int| 0 <= a < r@.len() && (#[trigger] r@[a]).0 == b@[c].0,
        decreases b@.len() - bi,
    {
        let e = b[bi];
        let ghost r_old = r@;
        if (incl && e.0 >= k) || (!incl && e.0 > k) {
            proof {
                lemma_assoc_map_index(b@, bi as int);
                assert forall|a: int| 0 <= a < r@.len()
                    implies (#[trigger] r@[a]).0 < e.0 by {
                    let c = choose|c: int| 0 <= c < bi && b@[c] == r@[a];
                }
            }
            r.push(e);
        }
        proof {
            assert forall|c: int| 0 <= c < bi + 1
                && (if incl { (#[trigger] b@[c]).0 >= k } else { b@[c].0 > k })
                implies exists|a: int| 0 <= a < r@.len() && (#[trigger] r@[a]).0 == b@[c].0 by {
                if c < bi {
                    let a = choose|a: int| 0 <= a < r_old.len() && (#[trigger] r_old[a]).0 == b@[c].0;
                    assert(r@[a].0 == b@[c].0);
                } else {
                    assert(r@[r@.len() - 1].0 == b@[c].0);
                }
            }
        }
        bi = bi + 1;
    }
    proof {
        assert forall|j: i64| assoc_map(b@).contains_key(j)
            && (if incl { j >= k } else { j > k })
            implies exists|a: int| 0 <= a < r@.len() && (#[trigger] r@[a]).0 == j by {
            lemma_assoc_map_contains(b@, j);
            let c = choose|c: int| 0 <= c < b@.len() && (#[trigger] b@[c]).0 == j;
        }
    }
    r
}

/// Collects the entries of a sorted bucket whose keys are below the given
/// bound, in descending key order.
pub(crate) fn bucket_head_rev<V: Copy>(b: &Bucket<V>, k: i64, incl: bool) -> (r: Vec<(i64, V)>)
    requires
        assoc_sorted(b@),
    ensures
        forall|a: int| 0 <= a < r@.len() ==> {
            &&& assoc_map(b@).contains_key((#[trigger] r@[a]).0)
            &&& assoc_map(b@)[r@[a].0] == r@[a].1
            &&& if incl { r@[a].0 <= k } else { r@[a].0 < k }
        },
        forall|a: int, c: int| 0 <= a < c < r@.len()
            ==> (#[trigger] r@[a]).0 > (#[trigger] r@[c]).0,
        forall|j: i64| assoc_map(b@).contains_key(j) && (if incl { j <= k } else { j < k })
            ==> exists|a: int| 0 <= a < r@.len() && (#[trigger] r@[a]).0 == j,
{
    let mut r: Vec<(i64, V)> = Vec::new();
    let mut bi: usize = b.len();
    while bi > 0
        invariant
            assoc_sorted(b@),
            bi <= b@.len(),
            forall|a: int| 0 <= a < r@.len() ==> {
                &&& assoc_map(b@).contains_key((#[trigger] r@[a]).0)
                &&& assoc_map(b@)[r@[a].0] == r@[a].1
                &&& if incl { r@[a].0 <= k } else { r@[a].0 < k }
            },
            forall|a: int| 0 <= a < r@.len()
                ==> exists|c: int| bi <= c < b@.len() && b@[c] == (#[trigger] r@[a]),
            forall|a: int, c: int| 0 <= a < c < r@.len()
                ==> (#[trigger] r@[a]).0 > (#[trigger] r@[c]).0,
            forall|c: int| bi <= c < b@.len()
                && (if incl { (#[trigger] b@[c]).0 <= k } else { b@[c].0 < k })
                ==> exists|a: int| 0 <= a < r@.len() && (#[trigger] r@[a]).0 == b@[c].0,
        decreases bi,
    {
        bi = bi - 1;
        let e = b[bi];
        let ghost r_old = r@;
        if (incl && e.0 <= k) || (!incl && e.0 < k) {
            proof {
                lemma_assoc_map_index(b@, bi as int);
                assert forall|a: int| 0 <= a < r@.len()
                    implies (#[trigger] r@[a]).0 > e.0 by {
                    let c = choose|c: int| bi < c < b@.len() && b@[c] == r@[a];
                }
            }
            r.push(e);
        }
        proof {
            assert forall|c: int| bi <= c < b@.len()
                && (if incl { (#[trigger] b@[c]).0 <= k } else { b@[c].0 < k })
                implies exists|a: int| 0 <= a < r@.len() && (#[trigger] r@[a]).0 == b@[c].0 by {
                if c > bi {
                    let a = choose|a: int| 0 <= a < r_old.len() && (#[trigger] r_old[a]).0 == b@[c].0;
                    assert(r@[a].0 == b@[c].0);
                } else {
                    assert(r@[r@.len() - 1].0 == b@[c].0);
                }
            }
        }
    }
    proof {
        assert forall|j: i64| assoc_map(b@).contains_key(j)
            && (if incl { j <= k } else { j < k })
            implies exists|a: int| 0 <= a < r@.len() && (#[trigger] r@[a]).0 == j by {
            lemma_assoc_map_contains(b@, j);
            let c = choose|c: int| 0 <= c < b@.len() && (#[trigger] b@[c]).0 == j;
        }
    }
    r
}

/// Collects the entries of the bucket of the given outer key that lie above
/// the bound on the inner key, in ascending inner key order.
pub(crate) fn table_tail<V: Copy>(t: &Table<V>, o: i64, k: i64, incl: bool) -> (r: Vec<(i64, V)>)
    requires
        table_wf(t@),
    ensures
        forall|a: int| 0 <= a < r@.len() ==> {
            &&& table_view(t@).contains_key((o, (#[trigger] r@[a]).0))
            &&& table_view(t@)[(o, r@[a].0)] == r@[a].1
            &&& if incl { r@[a].0 >= k } else { r@[a].0 > k }
        },
        forall|a: int, c: int| 0 <= a < c < r@.len()
            ==> (#[trigger] r@[a]).0 < (#[trigger] r@[c]).0,
        forall|j: i64| table_view(t@).contains_key((o, j)) && (if incl { j >= k } else { j > k })
            ==> exists|a: int| 0 <= a < r@.len() && (#[trigger] r@[a]).0 == j,
{
    proof {
        lemma_assoc_map_contains(t@, o);
    }
    match assoc_find(t, o) {
        None => {
            let r: Vec<(i64, V)> = Vec::new();
            r
        },
        Some(i) => {
            proof {
                lemma_assoc_map_index(t@, i as int);
            }
            bucket_tail(&t[i].1, k, incl)
        },
    }
}

/// Collects the entries of the bucket of the given outer key that lie below
/// the bound on the inner key, in descending inner key order.
pub(crate) fn table_head_rev<V: Copy>(t: &Table<V>, o: i64, k: i64, incl: bool) -> (r: Vec<(i64, V)>)
    requires
        table_wf(t@),
    ensures
        forall|a: int| 0 <= a < r@.len() ==> {
            &&& table_view(t@).contains_key((o, (#[trigger] r@[a]).0))
            &&& table_view(t@)[(o, r@[a].0)] == r@[a].1
            &&& if incl { r@[a].0 <= k } else { r@[a].0 < k }
        },
        forall|a: int, c: int| 0 <= a < c < r@.len()
            ==> (#[trigger] r@[a]).0 > (#[trigger] r@[c]).0,
        forall|j: i64| table_view(t@).contains_key((o, j)) && (if incl { j <= k } else { j < k })
            ==> exists|a: int| 0 <= a < r@.len() && (#[trigger] r@[a]).0 == j,
{
    proof {
        lemma_assoc_map_contains(t@, o);
    }
    match assoc_find(t, o) {
        None => {
            let r: Vec<(i64, V)> = Vec::new();
            r
        },
        Some(i) => {
            proof {
                lemma_assoc_map_index(t@, i as int);
            }
            bucket_head_rev(&t[i].1, k, incl)
        },
    }
}

/// Whether one of the first `n` entries of a table has the given outer key.
pub open spec fn has_outer_key_below<V>(t: Seq<(i64, Bucket<V>)>, x: i64, n: int) -> bool {
    exists|j: int| 0 <= j < n && (#[trigger] t[j]).0 == x
}

/// Collects all entries of a table in lexicographic order of their key
/// pairs: by outer key first, then by inner key.
pub(crate) fn table_entries<V: Copy>(t: &Table<V>) -> (r: Vec<((i64, i64), V)>)
    requires
        table_wf(t@),
    ensures
        forall|a: int| 0 <= a < r@.len() ==> {
            &&& table_view(t@).contains_key((#[trigger] r@[a]).0)
            &&& table_view(t@)[r@[a].0] == r@[a].1
        },
        forall|a: int, c: int| 0 <= a < c < r@.len()
            ==> pair_lt((#[trigger] r@[a]).0, (#[trigger] r@[c]).0),
        forall|p: (i64, i64)| #[trigger] table_view(t@).contains_key(p)
            ==> exists|a: int| 0 <= a < r@.len() && (#[trigger] r@[a]).0 == p,
{
    let mut r: Vec<((i64, i64), V)> = Vec::new();
    let mut oi: usize = 0;
    while oi < t.len()
        invariant
            table_wf(t@),
            oi <= t@.len(),
            forall|a: int| 0 <= a < r@.len() ==> {
                &&& table_view(t@).contains_key((#[trigger] r@[a]).0)
                &&& table_view(t@)[r@[a].0] == r@[a].1
            },
            forall|a: int| 0 <= a < r@.len()
                ==> has_outer_key_below(t@, (#[trigger] r@[a]).0.0, oi as int),
            forall|a: int, c: int| 0 <= a < c < r@.len()
                ==> pair_lt((#[trigger] r@[a]).0, (#[trigger] r@[c]).0),
            forall|p: (i64, i64)| #[trigger] table_view(t@).contains_key(p)
                && has_outer_key_below(t@, p.0, oi as int)
                ==> exists|a: int| 0 <= a < r@.len() && (#[trigger] r@[a]).0 == p,
        decreases t@.len() - oi,
    {
        let o = t[oi].0;
        proof {
            lemma_assoc_map_index(t@, oi as int);
        }
        let es = bucket_tail(&t[oi].1, i64::MIN, true);
        let ghost r_before = r@;
        proof {
            assert forall|c: int| 0 <= c < r_before.len()
                implies has_outer_key_below(t@, (#[trigger] r_before[c]).0.0, oi as int) by {
                assert(0 <= c < r@.len());
                assert(r@[c] == r_before[c]);
            }
            assert forall|p: (i64, i64)| #[trigger] table_view(t@).contains_key(p)
                && has_outer_key_below(t@, p.0, oi as int)
                implies exists|a: int| 0 <= a < r_before.len()
                    && (#[trigger] r_before[a]).0 == p by {
                let a = choose|a: int| 0 <= a < r@.len() && (#[trigger] r@[a]).0 == p;
                assert(r_before[a] == r@[a]);
            }
        }
        let mut a: usize = 0;
        #[verifier::loop_isolation(false)]
        while a < es.len()
            invariant
                a <= es@.len(),
                r@.len() == r_before.len() + a,
                forall|c: int| 0 <= c < r_before.len() ==> r@[c] == r_before[c],
                forall|c: int| r_before.len() <= c < r@.len()
                    ==> (#[trigger] r@[c]).0 == (o, es@[c - r_before.len()].0)
                        && r@[c].1 == es@[c - r_before.len()].1,
                forall|c: int| 0 <= c < r@.len() ==> {
                    &&& table_view(t@).contains_key((#[trigger] r@[c]).0)
                    &&& table_view(t@)[r@[c].0] == r@[c].1
                },
                forall|c: int, d: int| 0 <= c < d < r@.len()
                    ==> pair_lt((#[trigger] r@[c]).0, (#[trigger] r@[d]).0),
            decreases es@.len() - a,
        {
            let e = es[a];
            proof {
                assert forall|c: int| 0 <= c < r_before.len()
                    implies pair_lt((#[trigger] r@[c]).0, (o, e.0)) by {
                    assert(r@[c] == r_before[c]);
                    assert(has_outer_key_below(t@, r_before[c].0.0, oi as int));
                    let j = choose|j: int| 0 <= j < oi && (#[trigger] t@[j]).0 == r_before[c].0.0;
                    assert(t@[j].0 < t@[oi as int].0);
                }
            }
            r.push(((o, e.0), e.1));
            a = a + 1;
        }
        proof {
            assert forall|a2: int| 0 <= a2 < r@.len()
                implies has_outer_key_below(t@, (#[trigger] r@[a2]).0.0, oi + 1) by {
                if a2 >= r_before.len() {
                    assert((#[trigger] t@[oi as int]).0 == r@[a2].0.0);
                } else {
                    assert(r@[a2] == r_before[a2]);
                    assert(has_outer_key_below(t@, r_before[a2].0.0, oi as int));
                    let j = choose|j: int| 0 <= j < oi && (#[trigger] t@[j]).0 == r_before[a2].0.0;
                    assert(0 <= j < oi + 1 && t@[j].0 == r@[a2].0.0);
                }
            }
            assert forall|p: (i64, i64)| #[trigger] table_view(t@).contains_key(p)
                && has_outer_key_below(t@, p.0, oi + 1)
                implies exists|a2: int| 0 <= a2 < r@.len() && (#[trigger] r@[a2]).0 == p by {
                let j = choose|j: int| 0 <= j < oi + 1 && (#[trigger] t@[j]).0 == p.0;
                if j == oi {
                    assert(assoc_map(t@)[p.0] == t@[oi as int].1);
                    let c = choose|c: int|
                        0 <= c < es@.len() && (#[trigger] es@[c]).0 == p.1;
                    assert(r@[r_before.len() + c].0 == p);
                } else {
                    assert(has_outer_key_below(t@, p.0, oi as int)) by {
                        assert(0 <= j < oi && (#[trigger] t@[j]).0 == p.0);
                    }
                    let a2 = choose|a2: int| 0 <= a2 < r_before.len()
                        && (#[trigger] r_before[a2]).0 == p;
                    assert(r@[a2] == r_before[a2]);
                }
            }
        }
        oi = oi + 1;
    }
    proof {
        assert forall|p: (i64, i64)| #[trigger] table_view(t@).contains_key(p)
            implies exists|a: int| 0 <= a < r@.len() && (#[trigger] r@[a]).0 == p by {
            lemma_assoc_map_contains(t@, p.0);
            assert(has_outer_key_below(t@, p.0, t@.len() as int));
        }
    }
    r
}

/// Looks a key pair up in a table.
pub(crate) fn table_get<V: Copy>(t: &Table<V>, o: i64, k: i64) -> (r: Option<V>)
    requires
        table_wf(t@),
    ensures
        r == if table_view(t@).contains_key((o, k)) {
            Some(table_view(t@)[(o, k)])
        } else {
            None::<V>
        },
{
    proof {
        lemma_assoc_map_contains(t@, o);
    }
    match assoc_find(t, o) {
        None => None,
        Some(i) => {
            proof {
                lemma_assoc_map_index(t@, i as int);
            }
            let bucket = &t[i].1;
            proof {
                lemma_assoc_map_contains(bucket@, k);
            }
            match assoc_find(bucket, k) {
                None => None,
                Some(j) => {
                    proof {
                        lemma_assoc_map_index(bucket@, j as int);
                    }
                    Some(bucket[j].1)
                },
            }
        },
    }
}

/// Inserts or replaces a binding in a table, creating the bucket of the
/// outer key when it does not exist yet.
pub(crate) fn table_insert<V: Copy>(t: &mut Table<V>, o: i64, k: i64, v: V) -> (old_v: Option<V>)
    requires
        table_wf(old(t)@),
    ensures
        table_wf(final(t)@),
        table_view(final(t)@) == table_view(old(t)@).insert((o, k), v),
        old_v == if table_view(old(t)@).contains_key((o, k)) {
            Some(table_view(old(t)@)[(o, k)])
        } else {
            None::<V>
        },
{
    let ghost told = t@;
    let idx = assoc_lower_bound(t, o);
    if idx < t.len() && t[idx].0 == o {
        proof {
            lemma_assoc_map_index(told, idx as int);
        }
        let pair = t.remove(idx);
        let o_key = pair.0;
        let mut bucket = pair.1;
        let ghost bold = bucket@;
        let old_v = bucket_put(&mut bucket, k, v);
        t.insert(idx, (o_key, bucket));
        proof {
            assert(t@ =~= told.update(idx as int, (o, bucket)));
            lemma_assoc_map_update(told, idx as int, (o, bucket));
            assert(table_wf(t@)) by {
                assert forall|i: int| 0 <= i < t@.len()
                    implies assoc_sorted((#[trigger] t@[i]).1@) && t@[i].1@.len() > 0 by {
                    if i != idx {
                        assert(t@[i] == told[i]);
                    }
                }
            }
            assert(table_view(t@) =~= table_view(told).insert((o, k), v)) by {
                assert forall|p: (i64, i64)| true implies
                    (table_view(t@).contains_key(p) <==> table_view(told).insert(
                        (o, k),
                        v,
                    ).contains_key(p)) && (table_view(t@).contains_key(p)
                    ==> table_view(t@)[p] == table_view(told).insert((o, k), v)[p]) by {
                    if p.0 == o {
                        assert(assoc_map(t@)[o] == bucket);
                        assert(assoc_map(bucket@) == assoc_map(bold).insert(k, v));
                    }
                }
            }
        }
        old_v
    } else {
        proof {
            lemma_assoc_map_contains(told, o);
            assert(!assoc_map(told).contains_key(o));
        }
        let mut bucket: Bucket<V> = Vec::new();
        bucket.push((k, v));
        proof {
            assert(bucket@.drop_last() =~= Seq::<(i64, V)>::empty());
            assert(assoc_map(bucket@.drop_last()) == Map::<i64, V>::empty());
            assert(bucket@.last() == (k, v));
            assert(assoc_map(bucket@) == Map::<i64, V>::empty().insert(k, v));
        }
        t.insert(idx, (o, bucket));
        proof {
            lemma_assoc_map_insert(told, idx as int, (o, bucket));
            assert(table_wf(t@)) by {
                assert forall|i: int, j: int| 0 <= i < j < t@.len()
                    implies (#[trigger] t@[i]).0 < (#[trigger] t@[j]).0 by {
                    if i < idx {
                        assert(t@[i] == told[i]);
                    } else if i > idx {
                        assert(t@[i] == told[i - 1]);
                    }
                    if j < idx {
                        assert(t@[j] == told[j]);
                    } else if j > idx {
                        assert(t@[j] == told[j - 1]);
                    }
                }
                assert forall|i: int| 0 <= i < t@.len()
                    implies assoc_sorted((#[trigger] t@[i]).1@) && t@[i].1@.len() > 0 by {
                    if i < idx {
                        assert(t@[i] == told[i]);
                    } else if i > idx {
                        assert(t@[i] == told[i - 1]);
                    }
                }
            }
            assert(table_view(t@) =~= table_view(told).insert((o, k), v)) by {
                assert forall|p: (i64, i64)| true implies
                    (table_view(t@).contains_key(p) <==> table_view(told).insert(
                        (o, k),
                        v,
                    ).contains_key(p)) && (table_view(t@).contains_key(p)
                    ==> table_view(t@)[p] == table_view(told).insert((o, k), v)[p]) by {
                    if p.0 == o {
                        assert(assoc_map(t@)[o] == bucket);
                    }
                }
            }
        }
        None
    }
}

/// Removes a binding from a table, pruning the bucket of the outer key
/// when it becomes empty.
pub(crate) fn table_remove<V: Copy>(t: &mut Table<V>, o: i64, k: i64) -> (old_v: Option<V>)
    requires
        table_wf(old(t)@),
    ensures
        table_wf(final(t)@),
        table_view(final(t)@) == table_view(old(t)@).remove((o, k)),
        old_v == if table_view(old(t)@).contains_key((o, k)) {
            Some(table_view(old(t)@)[(o, k)])
        } else {
            None::<V>
        },
{
    let ghost told = t@;
    proof {
        lemma_assoc_map_contains(told, o);
    }
    match assoc_find(t, o) {
        None => {
            proof {
                assert(table_view(told).remove((o, k)) =~= table_view(told));
            }
            None
        },
        Some(idx) => {
            proof {
                lemma_assoc_map_index(told, idx as int);
            }
            let pair = t.remove(idx);
            let o_key = pair.0;
            let mut bucket = pair.1;
            let ghost bold = bucket@;
            let old_v = bucket_del(&mut bucket, k);
            if bucket.len() > 0 {
                t.insert(idx, (o_key, bucket));
                proof {
                    assert(t@ =~= told.update(idx as int, (o, bucket)));
                    lemma_assoc_map_update(told, idx as int, (o, bucket));
                    assert(table_wf(t@)) by {
                        assert forall|i: int| 0 <= i < t@.len()
                            implies assoc_sorted((#[trigger] t@[i]).1@) && t@[i].1@.len() > 0 by {
                            if i != idx {
                                assert(t@[i] == told[i]);
                            }
                        }
                    }
                    assert(table_view(t@) =~= table_view(told).remove((o, k))) by {
                        assert forall|p: (i64, i64)| true implies
                            (table_view(t@).contains_key(p) <==> table_view(told).remove(
                                (o, k),
                            ).contains_key(p)) && (table_view(t@).contains_key(p)
                            ==> table_view(t@)[p] == table_view(told).remove((o, k))[p]) by {
                            if p.0 == o {
                                assert(assoc_map(t@)[o] == bucket);
                                assert(assoc_map(bucket@) == assoc_map(bold).remove(k));
                            }
                        }
                    }
                }
                old_v
            } else {
                proof {
                    assert forall|j: int| 0 <= j < told.len() && j != idx
                        implies (#[trigger] told[j]).0 != told[idx as int].0 by {}
                    lemma_assoc_map_remove(told, idx as int);
                    // the bucket of `o` held exactly the binding of `k`
                    assert(bold.len() > 0);
                    assert(old_v is Some);
                    assert(bold.len() == 1);
                    lemma_assoc_map_contains(bold, k);
                    assert(bold[0].0 == k) by {
                        let i = choose|i: int| 0 <= i < bold.len() && (#[trigger] bold[i]).0 == k;
                        assert(i == 0);
                    }
                    assert(table_wf(t@)) by {
                        assert forall|a: int, c: int| 0 <= a < c < t@.len()
                            implies (#[trigger] t@[a]).0 < (#[trigger] t@[c]).0 by {
                            if a < idx {
                                assert(t@[a] == told[a]);
                            } else {
                                assert(t@[a] == told[a + 1]);
                            }
                            if c < idx {
                                assert(t@[c] == told[c]);
                            } else {
                                assert(t@[c] == told[c + 1]);
                            }
                        }
                        assert forall|i: int| 0 <= i < t@.len()
                            implies assoc_sorted((#[trigger] t@[i]).1@) && t@[i].1@.len() > 0 by {
                            if i < idx {
                                assert(t@[i] == told[i]);
                            } else {
                                assert(t@[i] == told[i + 1]);
                            }
                        }
                    }
                    assert(!assoc_map(t@).contains_key(o)) by {
                        lemma_assoc_map_contains(t@, o);
                        assert forall|j: int| 0 <= j < t@.len()
                            implies (#[trigger] t@[j]).0 != o by {
                            if j < idx {
                                assert(t@[j] == told[j]);
                            } else {
                                assert(t@[j] == told[j + 1]);
                            }
                        }
                    }
                    let lhs = table_view(t@);
                    let rhs = table_view(told).remove((o, k));
                    assert forall|p: (i64, i64)| lhs.contains_key(p)
                        implies rhs.contains_key(p) && lhs[p] == rhs[p] by {
                        assert(p.0 != o);
                    }
                    assert forall|p: (i64, i64)| rhs.contains_key(p)
                        implies lhs.contains_key(p) by {
                        if p.0 == o {
                            lemma_assoc_map_contains(bold, p.1);
                            let i = choose|i: int| 0 <= i < bold.len() && (#[trigger] bold[i]).0 == p.1;
                            assert(p.1 == k);
                            assert(false);
                        }
                    }
                    assert(lhs =~= rhs);
                }
                old_v
            }
        },
    }
}

} // verus!
