//! What holds of ordered sequences of entries, whatever map they came from:
//! how insertion, removal and lookup act on each other, and that the order in
//! which disjoint intervals are put in does not show in the result.

use vstd::prelude::*;
use crate::scalar::Scalar;
use crate::itree::{
    Entries, Interval, covered, index_of, inserted, lookup, ordered, ordered_entries_are_disjoint,
    insert_keeps_order, parts_at, place_of, rank, stored, vacant, value_at,
};

verus! {

/// An ordered sequence with its last entry taken off is ordered.
pub proof fn prefix_is_ordered<K: Scalar, V>(s: Entries<K, V>)
    requires
        ordered(s),
        s.len() > 0,
    ensures
        ordered(s.drop_last()),
{
    let t = s.drop_last();
    assert forall|i: int| 0 <= i < t.len() implies (#[trigger] t[i]).0.valid() by {
        assert(t[i] == s[i]);
    }
    assert forall|i: int, j: int| 0 <= i < j < t.len() implies (#[trigger] t[i]).0.below(
        (#[trigger] t[j]).0,
    ) by {
        assert(t[i] == s[i] && t[j] == s[j]);
    }
}

/// Where no interval of an ordered sequence overlaps a valid `key`, the
/// intervals under `key` come first and all the others lie above it.
pub proof fn vacant_key_parts<K: Scalar, V>(s: Entries<K, V>, key: Interval<K>)
    requires
        ordered(s),
        key.valid(),
        vacant(s, key),
    ensures
        parts_at(s, key, rank(s, key)),
    decreases s.len(),
{
    if s.len() > 0 {
        let t = s.drop_last();
        let n = s.len() - 1;
        prefix_is_ordered(s);
        assert(vacant(t, key)) by {
            assert forall|i: int| 0 <= i < t.len() implies !(#[trigger] t[i]).0.overlaps(key) by {
                assert(t[i] == s[i]);
            }
        }
        vacant_key_parts(t, key);
        let p = rank(t, key);
        assert(s.last() == s[n]);
        assert(!s[n].0.overlaps(key));
        assert(s[n].0.valid());
        assert forall|i: int| 0 <= i < p implies (#[trigger] s[i]).0.below(key) by {
            assert(t[i] == s[i]);
        }
        if s[n].0.below(key) {
            if p < n {
                assert(t[p] == s[p]);
                assert(key.below(t[p].0));
                assert(s[p].0.below(s[n].0));
            }
            assert(p == n);
        } else {
            assert forall|i: int| p <= i < s.len() implies key.below((#[trigger] s[i]).0) by {
                if i < n {
                    assert(t[i] == s[i]);
                }
            }
        }
    }
}

/// After a valid `key` that overlaps nothing is put in, the sequence is still
/// ordered; every point of `key` is answered with the new entry, and every
/// other point is answered as before.
pub proof fn insert_then_lookup<K: Scalar, V>(
    s: Entries<K, V>,
    key: Interval<K>,
    value: V,
    x: K,
)
    requires
        ordered(s),
        key.valid(),
        vacant(s, key),
    ensures
        ordered(inserted(s, key, value)),
        key.contains(x) ==> lookup(inserted(s, key, value), x) == Some((key, value)),
        key.contains(x) ==> value_at(inserted(s, key, value), x) == Some(value),
        !key.contains(x) ==> lookup(inserted(s, key, value), x) == lookup(s, x),
        !key.contains(x) ==> value_at(inserted(s, key, value), x) == value_at(s, x),
        !key.contains(x) && s.len() == 0 ==> value_at(inserted(s, key, value), x).is_none(),
{
    let p = rank(s, key);
    let t = inserted(s, key, value);
    vacant_key_parts(s, key);
    insert_keeps_order(s, key, value, p);
    assert(t[p] == (key, value));
    if key.contains(x) {
        assert(t[p].0.contains(x));
        let j = place_of(t, x);
        assert(t[j].0.overlaps(t[p].0));
        ordered_entries_are_disjoint(t, j, p);
    } else if covered(s, x) {
        let i = place_of(s, x);
        let i2 = if i < p { i } else { i + 1 };
        assert(t[i2] == s[i]);
        assert(t[i2].0.contains(x));
        let j = place_of(t, x);
        assert(t[j].0.overlaps(t[i2].0));
        ordered_entries_are_disjoint(t, j, i2);
    } else {
        if covered(t, x) {
            let j = place_of(t, x);
            let j2 = if j < p { j } else { j - 1 };
            assert(t[j] == s[j2]);
            assert(s[j2].0.contains(x));
        }
    }
}

/// Of two intervals that share a point, whichever is put in first leaves no
/// room for the other, whatever else the sequence holds.
pub proof fn overlapping_insert_conflicts<K: Scalar, V>(
    s: Entries<K, V>,
    a: Interval<K>,
    value: V,
    b: Interval<K>,
)
    requires
        a.overlaps(b),
    ensures
        !vacant(inserted(s, a, value), b),
        !vacant(inserted(s, b, value), a),
{
    rank_is_a_place(s, a);
    rank_is_a_place(s, b);
    assert(inserted(s, a, value)[rank(s, a)].0 == a);
    assert(inserted(s, b, value)[rank(s, b)].0 == b);
}

/// The number of intervals under a key is a place in the sequence.
pub proof fn rank_is_a_place<K: Scalar, V>(s: Entries<K, V>, key: Interval<K>)
    ensures
        0 <= rank(s, key) <= s.len(),
    decreases s.len(),
{
    if s.len() > 0 {
        rank_is_a_place(s.drop_last(), key);
    }
}

/// What an insertion adds to a sequence is the new entry and nothing else.
pub proof fn inserted_entries<K: Scalar, V>(
    s: Entries<K, V>,
    key: Interval<K>,
    value: V,
    e: (Interval<K>, V),
)
    ensures
        inserted(s, key, value).contains(e) <==> (s.contains(e) || e == (key, value)),
{
    rank_is_a_place(s, key);
    let p = rank(s, key);
    let t = inserted(s, key, value);
    if t.contains(e) {
        let j = choose|j: int| 0 <= j < t.len() && t[j] == e;
        if j != p {
            let j2 = if j < p { j } else { j - 1 };
            assert(s[j2] == e);
        }
    }
    if s.contains(e) {
        let i = choose|i: int| 0 <= i < s.len() && s[i] == e;
        let i2 = if i < p { i } else { i + 1 };
        assert(t[i2] == e);
    }
    if e == (key, value) {
        assert(t[p] == e);
    }
}

/// Two ordered sequences that hold the same entries are the same sequence.
pub proof fn ordered_is_unique<K: Scalar, V>(s: Entries<K, V>, t: Entries<K, V>)
    requires
        ordered(s),
        ordered(t),
        forall|e: (Interval<K>, V)| s.contains(e) <==> t.contains(e),
    ensures
        s == t,
    decreases s.len(),
{
    if s.len() == 0 {
        if t.len() > 0 {
            assert(t.contains(t[0]));
        }
        assert(s =~= t);
    } else {
        let n = s.len() - 1;
        assert(s.contains(s[n]));
        let m = t.len() - 1;
        assert(t.len() > 0) by {
            let j = choose|j: int| 0 <= j < t.len() && t[j] == s[n];
        }
        assert(t.contains(t[m]));
        let j = choose|j: int| 0 <= j < t.len() && t[j] == s[n];
        let i = choose|i: int| 0 <= i < s.len() && s[i] == t[m];
        assert(s[n].0.valid() && t[m].0.valid());
        if j < m {
            assert(t[j].0.below(t[m].0));
            if i < n {
                assert(s[i].0.below(s[n].0));
            }
        }
        assert(j == m);
        let s1 = s.drop_last();
        let t1 = t.drop_last();
        prefix_is_ordered(s);
        prefix_is_ordered(t);
        assert forall|e: (Interval<K>, V)| s1.contains(e) <==> t1.contains(e) by {
            if s1.contains(e) {
                let a = choose|a: int| 0 <= a < s1.len() && s1[a] == e;
                assert(s1[a] == s[a]);
                assert(s[a].0.below(s[n].0));
                assert(s.contains(e));
                let b = choose|b: int| 0 <= b < t.len() && t[b] == e;
                assert(b != m);
                assert(t1[b] == e);
            }
            if t1.contains(e) {
                let b = choose|b: int| 0 <= b < t1.len() && t1[b] == e;
                assert(t1[b] == t[b]);
                assert(t[b].0.below(t[m].0));
                assert(t.contains(e));
                let a = choose|a: int| 0 <= a < s.len() && s[a] == e;
                assert(a != n);
                assert(s1[a] == e);
            }
        }
        ordered_is_unique(s1, t1);
        assert(s =~= s1.push(s[n]));
        assert(t =~= t1.push(t[m]));
    }
}

/// Two valid intervals that share no point, neither overlapping anything
/// stored, can both be put in, and the result does not depend on which went
/// first.
pub proof fn disjoint_inserts_commute<K: Scalar, V>(
    s: Entries<K, V>,
    a: Interval<K>,
    va: V,
    b: Interval<K>,
    vb: V,
)
    requires
        ordered(s),
        a.valid(),
        b.valid(),
        vacant(s, a),
        vacant(s, b),
        !a.overlaps(b),
    ensures
        vacant(inserted(s, a, va), b),
        vacant(inserted(s, b, vb), a),
        inserted(inserted(s, a, va), b, vb) == inserted(inserted(s, b, vb), a, va),
{
    let sa = inserted(s, a, va);
    let sb = inserted(s, b, vb);
    insert_grows_vacancy(s, a, va, b);
    insert_grows_vacancy(s, b, vb, a);
    vacant_key_parts(s, a);
    vacant_key_parts(s, b);
    insert_keeps_order(s, a, va, rank(s, a));
    insert_keeps_order(s, b, vb, rank(s, b));
    vacant_key_parts(sa, b);
    vacant_key_parts(sb, a);
    insert_keeps_order(sa, b, vb, rank(sa, b));
    insert_keeps_order(sb, a, va, rank(sb, a));
    let sab = inserted(sa, b, vb);
    let sba = inserted(sb, a, va);
    assert forall|e: (Interval<K>, V)| sab.contains(e) <==> sba.contains(e) by {
        inserted_entries(sa, b, vb, e);
        inserted_entries(s, a, va, e);
        inserted_entries(sb, a, va, e);
        inserted_entries(s, b, vb, e);
    }
    ordered_is_unique(sab, sba);
}

/// Putting in `a` leaves room for every interval that had room before and
/// does not overlap `a`.
pub proof fn insert_grows_vacancy<K: Scalar, V>(
    s: Entries<K, V>,
    a: Interval<K>,
    va: V,
    b: Interval<K>,
)
    requires
        vacant(s, b),
        !a.overlaps(b),
    ensures
        vacant(inserted(s, a, va), b),
{
    rank_is_a_place(s, a);
    let p = rank(s, a);
    let t = inserted(s, a, va);
    assert forall|i: int| 0 <= i < t.len() implies !(#[trigger] t[i]).0.overlaps(b) by {
        if i != p {
            let i2 = if i < p { i } else { i - 1 };
            assert(t[i] == s[i2]);
        }
    }
}

/// Taking out an interval that was just put in gives back the sequence as
/// it was.
pub proof fn insert_then_remove<K: Scalar, V>(s: Entries<K, V>, key: Interval<K>, value: V)
    requires
        ordered(s),
        key.valid(),
        vacant(s, key),
    ensures
        stored(inserted(s, key, value), key),
        inserted(s, key, value).remove(index_of(inserted(s, key, value), key)) == s,
{
    let p = rank(s, key);
    let t = inserted(s, key, value);
    vacant_key_parts(s, key);
    insert_keeps_order(s, key, value, p);
    assert(t[p].0 == key);
    let j = index_of(t, key);
    assert(t[j].0.overlaps(t[p].0));
    ordered_entries_are_disjoint(t, j, p);
    assert(t.remove(p) =~= s);
}

/// An interval is stored only where it was put in itself: one that merely
/// overlaps a stored interval, as a part of it or reaching beyond it, is not
/// stored, so that removing it changes nothing.
pub proof fn overlapping_is_not_stored<K: Scalar, V>(
    s: Entries<K, V>,
    i: int,
    key: Interval<K>,
)
    requires
        ordered(s),
        0 <= i < s.len(),
        key.overlaps(s[i].0),
        key != s[i].0,
    ensures
        !stored(s, key),
{
    if stored(s, key) {
        let j = index_of(s, key);
        ordered_entries_are_disjoint(s, i, j);
    }
}


/// Every interval of the batch is valid, and no two of them share a point.
pub open spec fn pairwise_disjoint<K: Scalar, V>(batch: Entries<K, V>) -> bool {
    &&& forall|i: int| 0 <= i < batch.len() ==> (#[trigger] batch[i]).0.valid()
    &&& forall|i: int, j: int|
        0 <= i < batch.len() && 0 <= j < batch.len() && i != j ==> !(
        #[trigger] batch[i]).0.overlaps((#[trigger] batch[j]).0)
}

/// No interval of the batch overlaps one of `s`.
pub open spec fn room_for<K: Scalar, V>(s: Entries<K, V>, batch: Entries<K, V>) -> bool {
    forall|i: int| 0 <= i < batch.len() ==> vacant(s, (#[trigger] batch[i]).0)
}

/// `s` after the entries of the batch have been put in, first to last.
pub open spec fn inserted_all<K: Scalar, V>(
    s: Entries<K, V>,
    batch: Entries<K, V>,
) -> Entries<K, V>
    decreases batch.len(),
{
    if batch.len() == 0 {
        s
    } else {
        inserted(inserted_all(s, batch.drop_last()), batch.last().0, batch.last().1)
    }
}

/// Putting a batch of disjoint intervals into an ordered sequence that has
/// room for them gives an ordered sequence that holds the old entries and
/// those of the batch, and nothing else.
pub proof fn batch_entries<K: Scalar, V>(s: Entries<K, V>, batch: Entries<K, V>)
    requires
        ordered(s),
        pairwise_disjoint(batch),
        room_for(s, batch),
    ensures
        ordered(inserted_all(s, batch)),
        forall|e: (Interval<K>, V)|
            inserted_all(s, batch).contains(e) <==> (s.contains(e) || batch.contains(e)),
    decreases batch.len(),
{
    if batch.len() > 0 {
        let n = batch.len() - 1;
        let front = batch.drop_last();
        let last = batch[n];
        assert(batch.last() == last);
        assert(pairwise_disjoint(front)) by {
            assert forall|i: int| 0 <= i < front.len() implies (#[trigger] front[i]).0.valid() by {
                assert(front[i] == batch[i]);
            }
            assert forall|i: int, j: int|
                0 <= i < front.len() && 0 <= j < front.len() && i != j implies !(
                #[trigger] front[i]).0.overlaps((#[trigger] front[j]).0) by {
                assert(front[i] == batch[i] && front[j] == batch[j]);
            }
        }
        assert(room_for(s, front)) by {
            assert forall|i: int| 0 <= i < front.len() implies vacant(
                s,
                (#[trigger] front[i]).0,
            ) by {
                assert(front[i] == batch[i]);
            }
        }
        batch_entries(s, front);
        let r = inserted_all(s, front);
        assert(vacant(s, last.0));
        assert(vacant(r, last.0)) by {
            assert forall|i: int| 0 <= i < r.len() implies !(#[trigger] r[i]).0.overlaps(
                last.0,
            ) by {
                assert(r.contains(r[i]));
                if s.contains(r[i]) {
                    let k = choose|k: int| 0 <= k < s.len() && s[k] == r[i];
                    assert(!s[k].0.overlaps(last.0));
                } else {
                    let k = choose|k: int| 0 <= k < front.len() && front[k] == r[i];
                    assert(front[k] == batch[k]);
                    assert(!batch[k].0.overlaps(batch[n].0));
                }
            }
        }
        vacant_key_parts(r, last.0);
        insert_keeps_order(r, last.0, last.1, rank(r, last.0));
        assert forall|e: (Interval<K>, V)|
            inserted_all(s, batch).contains(e) <==> (s.contains(e) || batch.contains(e)) by {
            inserted_entries(r, last.0, last.1, e);
            if front.contains(e) {
                let k = choose|k: int| 0 <= k < front.len() && front[k] == e;
                assert(batch[k] == e);
            }
            if batch.contains(e) {
                let k = choose|k: int| 0 <= k < batch.len() && batch[k] == e;
                if k < n {
                    assert(front[k] == e);
                }
            }
        }
    }
}

/// A rearrangement of a batch of disjoint intervals is such a batch too, and
/// holds the same entries.
pub proof fn rearranged_batch<K: Scalar, V>(a: Entries<K, V>, b: Entries<K, V>)
    requires
        pairwise_disjoint(a),
        a.to_multiset() == b.to_multiset(),
    ensures
        pairwise_disjoint(b),
        forall|e: (Interval<K>, V)| a.contains(e) <==> b.contains(e),
{
    assert(a.no_duplicates()) by {
        assert forall|i: int, j: int| 0 <= i < a.len() && 0 <= j < a.len() && i != j implies a[i]
            != a[j] by {
            assert(a[i].0.valid());
            assert(!a[i].0.overlaps(a[j].0));
        }
    }
    a.lemma_multiset_has_no_duplicates();
    b.lemma_multiset_has_no_duplicates_conv();
    assert forall|e: (Interval<K>, V)| a.contains(e) <==> b.contains(e) by {
        assert(a.to_multiset().count(e) == b.to_multiset().count(e));
        vstd::seq_lib::to_multiset_contains(a, e);
        vstd::seq_lib::to_multiset_contains(b, e);
    }
    assert forall|i: int| 0 <= i < b.len() implies (#[trigger] b[i]).0.valid() by {
        assert(b.contains(b[i]));
        let k = choose|k: int| 0 <= k < a.len() && a[k] == b[i];
        assert(a[k].0.valid());
    }
    assert forall|i: int, j: int| 0 <= i < b.len() && 0 <= j < b.len() && i != j implies !(
    #[trigger] b[i]).0.overlaps((#[trigger] b[j]).0) by {
        assert(b.contains(b[i]));
        assert(b.contains(b[j]));
        let k = choose|k: int| 0 <= k < a.len() && a[k] == b[i];
        let l = choose|l: int| 0 <= l < a.len() && a[l] == b[j];
        assert(b[i] != b[j]);
        assert(!a[k].0.overlaps(a[l].0));
    }
}

/// The order in which a batch of disjoint intervals is put in does not show
/// in the result: every rearrangement of the batch gives the same sequence.
pub proof fn batch_order_is_irrelevant<K: Scalar, V>(
    s: Entries<K, V>,
    a: Entries<K, V>,
    b: Entries<K, V>,
)
    requires
        ordered(s),
        pairwise_disjoint(a),
        room_for(s, a),
        a.to_multiset() == b.to_multiset(),
    ensures
        inserted_all(s, a) == inserted_all(s, b),
{
    rearranged_batch(a, b);
    assert(room_for(s, b)) by {
        assert forall|i: int| 0 <= i < b.len() implies vacant(s, (#[trigger] b[i]).0) by {
            assert(b.contains(b[i]));
            let k = choose|k: int| 0 <= k < a.len() && a[k] == b[i];
            assert(vacant(s, a[k].0));
        }
    }
    batch_entries(s, a);
    batch_entries(s, b);
    assert forall|e: (Interval<K>, V)|
        inserted_all(s, a).contains(e) <==> inserted_all(s, b).contains(e) by {
        assert(a.contains(e) <==> b.contains(e));
    }
    ordered_is_unique(inserted_all(s, a), inserted_all(s, b));
}

} // verus!
