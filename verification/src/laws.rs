//! Laws relating the index operations to one another, stated over the
//! same model functions that the operations' contracts use.

use vstd::prelude::*;
use vstd::seq_lib::group_to_multiset_ensures;
use crate::engine::contains_key;
use crate::engine::count_key;
use crate::engine::lemma_count_key_contains;
use crate::engine::lemma_without_key_props;
use crate::engine::renamed;
use crate::engine::vectors_under;
use crate::engine::without_key;
use crate::highlevel::sorted_distances;

verus! {

broadcast use group_to_multiset_ensures;

/// A key no stored pair carries stores no scalars.
pub proof fn lemma_vectors_under_absent<T>(s: Seq<(u64, Seq<T>)>, key: u64)
    requires
        !contains_key(s, key),
    ensures
        vectors_under(s, key) == Seq::<T>::empty(),
    decreases s.len(),
{
    if s.len() > 0 {
        assert(!contains_key(s.drop_last(), key)) by {
            if contains_key(s.drop_last(), key) {
                let i = choose|i: int|
                    0 <= i < s.drop_last().len() && (#[trigger] s.drop_last()[i]).0 == key;
                assert(s[i] == s.drop_last()[i]);
            }
        }
        assert(s.last().0 != key) by {
            assert(s[s.len() - 1] == s.last());
        }
        lemma_vectors_under_absent(s.drop_last(), key);
        assert(vectors_under(s, key) =~= Seq::<T>::empty());
    }
}

/// Adding a vector under a fresh key and then reading that key yields
/// exactly the added vector: with `add`'s contract, a `get` into a
/// buffer of the vector's length copies it back unchanged.
pub proof fn lemma_add_then_get<T>(m: Seq<(u64, Seq<T>)>, key: u64, v: Seq<T>)
    requires
        !contains_key(m, key),
    ensures
        vectors_under(m.push((key, v)), key) == v,
{
    lemma_vectors_under_absent(m, key);
    let p = m.push((key, v));
    assert(p.drop_last() =~= m);
    assert(p.last() == (key, v));
    assert(vectors_under(p, key) == vectors_under(m, key) + v);
    assert(Seq::<T>::empty() + v =~= v);
}

/// After removing a key, the key is gone: nothing is stored under it,
/// its count is zero, and a `get` for it writes nothing.
pub proof fn lemma_remove_then_gone<T>(m: Seq<(u64, Seq<T>)>, key: u64)
    ensures
        !contains_key(without_key(m, key), key),
        count_key(without_key(m, key), key) == 0,
        vectors_under(without_key(m, key), key) == Seq::<T>::empty(),
{
    lemma_without_key_props(m, key);
    let w = without_key::<T>(m, key);
    assert(count_key(w, key) == 0);
    lemma_count_key_contains(w, key);
    lemma_vectors_under_absent(w, key);
}

/// After renaming a present key `from` to a different key `to`, the
/// index contains `to` and no longer contains `from`.
pub proof fn lemma_rename_moves_key<T>(m: Seq<(u64, Seq<T>)>, from: u64, to: u64)
    requires
        from != to,
        contains_key(m, from),
    ensures
        contains_key(renamed(m, from, to), to),
        !contains_key(renamed(m, from, to), from),
{
    let r = renamed(m, from, to);
    let i = choose|i: int| 0 <= i < m.len() && (#[trigger] m[i]).0 == from;
    assert(r[i].0 == to);
    assert(contains_key(r, to));
    assert forall|j: int| 0 <= j < r.len() implies (#[trigger] r[j]).0 != from by {
        if m[j].0 == from {
            assert(r[j].0 == to);
        } else {
            assert(r[j].0 == m[j].0);
        }
    }
    if contains_key(r, from) {
        let j = choose|j: int| 0 <= j < r.len() && (#[trigger] r[j]).0 == from;
        assert(false);
    }
}

/// Sorted distance sequences are determined by their elements: two
/// sorted sequences over the same multiset are equal.
///
/// With the search contract, two indices holding equal stored pairs
/// under the same metric binding therefore report equal distance
/// sequences for every query and count — in particular an index
/// materialized from a saved stream, whose stored pairs
/// [`crate::codec::lemma_decode_index_roundtrip`] shows are restored
/// exactly.
pub proof fn lemma_sorted_distances_unique(a: Seq<i64>, b: Seq<i64>)
    requires
        sorted_distances(a),
        sorted_distances(b),
        a.to_multiset() == b.to_multiset(),
    ensures
        a == b,
    decreases a.len(),
{
    a.to_multiset_ensures();
    b.to_multiset_ensures();
    assert(a.to_multiset().len() == b.to_multiset().len());
    assert(a.len() == b.len());
    if a.len() == 0 {
        assert(a =~= b);
    } else {
        let x = a.last();
        let y = b.last();
        assert(a.to_multiset().count(x) > 0) by {
            assert(a[a.len() - 1] == x);
            assert(a.contains(x));
        }
        assert(b.contains(x));
        let i = choose|i: int| 0 <= i < b.len() && b[i] == x;
        assert(x <= y) by {
            assert(b[i] <= b[b.len() - 1]);
        }
        assert(b.to_multiset().count(y) > 0) by {
            assert(b[b.len() - 1] == y);
            assert(b.contains(y));
        }
        assert(a.contains(y));
        let j = choose|j: int| 0 <= j < a.len() && a[j] == y;
        assert(y <= x) by {
            assert(a[j] <= a[a.len() - 1]);
        }
        assert(x == y);
        assert(a.drop_last() =~= a.remove(a.len() - 1));
        assert(b.drop_last() =~= b.remove(b.len() - 1));
        assert(a.drop_last().to_multiset() =~= a.to_multiset().remove(x));
        assert(b.drop_last().to_multiset() =~= b.to_multiset().remove(y));
        assert(sorted_distances(a.drop_last())) by {
            assert forall|p: int, q: int|
                0 <= p <= q < a.drop_last().len() implies a.drop_last()[p] <= a.drop_last()[q] by {
                assert(a.drop_last()[p] == a[p] && a.drop_last()[q] == a[q]);
            }
        }
        assert(sorted_distances(b.drop_last())) by {
            assert forall|p: int, q: int|
                0 <= p <= q < b.drop_last().len() implies b.drop_last()[p] <= b.drop_last()[q] by {
                assert(b.drop_last()[p] == b[p] && b.drop_last()[q] == b[q]);
            }
        }
        lemma_sorted_distances_unique(a.drop_last(), b.drop_last());
        assert(a =~= b) by {
            assert forall|k: int| 0 <= k < a.len() implies a[k] == b[k] by {
                if k < a.len() - 1 {
                    assert(a.drop_last()[k] == a[k] && b.drop_last()[k] == b[k]);
                }
            }
        }
    }
}

/// Searches are reproducible in their distances: the leading entries of
/// two sorted arrangements of the same stored distances agree, whatever
/// order either search enumerated them in. Together with the search
/// contract this makes two indices holding equal stored pairs under the
/// same metric binding — one of them, say, reloaded from a saved stream
/// — report equal distance sequences for every query and count.
pub proof fn lemma_search_distances_determined(full1: Seq<i64>, full2: Seq<i64>, limit: int)
    requires
        sorted_distances(full1),
        sorted_distances(full2),
        full1.to_multiset() == full2.to_multiset(),
    ensures
        full1.take(limit) == full2.take(limit),
{
    lemma_sorted_distances_unique(full1, full2);
}

} // verus!
