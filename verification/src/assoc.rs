//! Association lists in ascending key order: the model of every keyed table
//! of this crate.

use vstd::prelude::*;
use crate::order::{
    bytes_lt, lemma_lt_asymmetric, lemma_lt_irreflexive, lemma_lt_total, lemma_lt_transitive,
};

verus! {

/// The keys of `es` stand in strictly ascending order, so none occurs twice.
pub open spec fn sorted<V>(es: Seq<(Seq<u8>, V)>) -> bool {
    forall|i: int, j: int|
        0 <= i < j < es.len() ==> bytes_lt(#[trigger] es[i].0, #[trigger] es[j].0)
}

/// The first position at or after `i` whose key does not come before `k`.
pub open spec fn lower_bound<V>(es: Seq<(Seq<u8>, V)>, k: Seq<u8>, i: int) -> int
    decreases es.len() - i,
{
    if 0 <= i < es.len() && bytes_lt(es[i].0, k) {
        lower_bound(es, k, i + 1)
    } else {
        i
    }
}

/// The position at which `k` stands in `es`, or at which it would be inserted.
pub open spec fn slot<V>(es: Seq<(Seq<u8>, V)>, k: Seq<u8>) -> int {
    lower_bound(es, k, 0)
}

/// `k` is a key of `es`.
pub open spec fn has_key<V>(es: Seq<(Seq<u8>, V)>, k: Seq<u8>) -> bool {
    slot(es, k) < es.len() && es[slot(es, k)].0 == k
}

/// The value that `es` holds for `k`.
pub open spec fn lookup<V>(es: Seq<(Seq<u8>, V)>, k: Seq<u8>) -> Option<V> {
    if has_key(es, k) {
        Some(es[slot(es, k)].1)
    } else {
        None
    }
}

/// `es` with the value of `k` set to `v`: replaced where `k` is a key,
/// inserted at its place in the order where it is not.
pub open spec fn put<V>(es: Seq<(Seq<u8>, V)>, k: Seq<u8>, v: V) -> Seq<(Seq<u8>, V)> {
    if has_key(es, k) {
        es.update(slot(es, k), (k, v))
    } else {
        es.insert(slot(es, k), (k, v))
    }
}

/// `es` without the entry of `k`.
pub open spec fn remove<V>(es: Seq<(Seq<u8>, V)>, k: Seq<u8>) -> Seq<(Seq<u8>, V)> {
    if has_key(es, k) {
        es.remove(slot(es, k))
    } else {
        es
    }
}

/// Where `lower_bound` stops: every key before it comes before `k`, and the
/// key at it does not.
pub proof fn lemma_lower_bound<V>(es: Seq<(Seq<u8>, V)>, k: Seq<u8>, i: int)
    requires
        0 <= i <= es.len(),
    ensures
        i <= lower_bound(es, k, i) <= es.len(),
        forall|j: int| i <= j < lower_bound(es, k, i) ==> bytes_lt(#[trigger] es[j].0, k),
        lower_bound(es, k, i) < es.len() ==> !bytes_lt(es[lower_bound(es, k, i)].0, k),
    decreases es.len() - i,
{
    if i < es.len() && bytes_lt(es[i].0, k) {
        lemma_lower_bound(es, k, i + 1);
    }
}

/// In a sorted list the slot of `k` parts the keys before `k` from the others.
pub proof fn lemma_slot<V>(es: Seq<(Seq<u8>, V)>, k: Seq<u8>)
    requires
        sorted(es),
    ensures
        0 <= slot(es, k) <= es.len(),
        forall|j: int| 0 <= j < slot(es, k) ==> bytes_lt(#[trigger] es[j].0, k),
        forall|j: int|
            slot(es, k) <= j < es.len() ==> (bytes_lt(k, #[trigger] es[j].0) || (j == slot(es, k)
                && es[j].0 == k)),
{
    lemma_lower_bound(es, k, 0);
    let p = slot(es, k);
    assert forall|j: int| p <= j < es.len() implies (bytes_lt(k, #[trigger] es[j].0) || (j == p
        && es[j].0 == k)) by {
        lemma_lt_total(es[p].0, k);
        if es[p].0 != k {
            assert(bytes_lt(k, es[p].0));
            if j > p {
                assert(bytes_lt(es[p].0, es[j].0));
                lemma_lt_transitive(k, es[p].0, es[j].0);
            }
        } else if j > p {
            assert(bytes_lt(es[p].0, es[j].0));
        }
    }
}

/// A position whose neighbours enclose `k` is the slot of `k`.
pub proof fn lemma_slot_is<V>(es: Seq<(Seq<u8>, V)>, k: Seq<u8>, p: int)
    requires
        0 <= p <= es.len(),
        forall|j: int| 0 <= j < p ==> bytes_lt(#[trigger] es[j].0, k),
        p < es.len() ==> !bytes_lt(es[p].0, k),
    ensures
        slot(es, k) == p,
{
    lemma_lower_bound(es, k, 0);
    let q = slot(es, k);
    if q < p {
        assert(bytes_lt(es[q].0, k));
    } else if p < q {
        assert(bytes_lt(es[p].0, k));
    }
}

/// Setting a value keeps the list sorted.
pub proof fn lemma_put_sorted<V>(es: Seq<(Seq<u8>, V)>, k: Seq<u8>, v: V)
    requires
        sorted(es),
    ensures
        sorted(put(es, k, v)),
{
    lemma_slot(es, k);
    let p = slot(es, k);
    let r = put(es, k, v);
    if has_key(es, k) {
        assert forall|i: int, j: int| 0 <= i < j < r.len() implies bytes_lt(
            #[trigger] r[i].0,
            #[trigger] r[j].0,
        ) by {
            assert(r[i].0 == es[i].0);
            assert(r[j].0 == es[j].0);
        }
    } else {
        assert forall|i: int, j: int| 0 <= i < j < r.len() implies bytes_lt(
            #[trigger] r[i].0,
            #[trigger] r[j].0,
        ) by {
            if j < p {
                assert(r[i] == es[i] && r[j] == es[j]);
            } else if j == p {
                assert(r[i] == es[i]);
            } else if i < p {
                assert(r[i] == es[i] && r[j] == es[j - 1]);
                if j - 1 == i {
                } else {
                    assert(bytes_lt(es[i].0, es[j - 1].0));
                }
                assert(bytes_lt(es[i].0, k));
                assert(bytes_lt(k, es[j - 1].0));
                lemma_lt_transitive(es[i].0, k, es[j - 1].0);
            } else if i == p {
                assert(r[j] == es[j - 1]);
                assert(bytes_lt(k, es[j - 1].0));
            } else {
                assert(r[i] == es[i - 1] && r[j] == es[j - 1]);
            }
        }
    }
}

/// A key that comes after every key of the list is added at its end.
pub proof fn lemma_put_last<V>(es: Seq<(Seq<u8>, V)>, k: Seq<u8>, v: V)
    requires
        forall|j: int| 0 <= j < es.len() ==> bytes_lt(#[trigger] es[j].0, k),
    ensures
        put(es, k, v) == es.push((k, v)),
{
    lemma_slot_is(es, k, es.len() as int);
    assert(es.insert(es.len() as int, (k, v)) =~= es.push((k, v)));
}

/// After a value was set, it is the value of its key, and the other keys
/// keep theirs.
pub proof fn lemma_lookup_put<V>(es: Seq<(Seq<u8>, V)>, k: Seq<u8>, v: V, other: Seq<u8>)
    requires
        sorted(es),
    ensures
        lookup(put(es, k, v), other) == if other == k {
            Some(v)
        } else {
            lookup(es, other)
        },
{
    lemma_slot(es, k);
    lemma_slot(es, other);
    lemma_put_sorted(es, k, v);
    let p = slot(es, k);
    let q = slot(es, other);
    let r = put(es, k, v);
    if other == k {
        lemma_lt_irreflexive(k);
        if has_key(es, k) {
            assert forall|j: int| 0 <= j < p implies bytes_lt(#[trigger] r[j].0, k) by {
                assert(r[j] == es[j]);
            }
        } else {
            assert forall|j: int| 0 <= j < p implies bytes_lt(#[trigger] r[j].0, k) by {
                assert(r[j] == es[j]);
            }
        }
        lemma_slot_is(r, k, p);
    } else if has_key(es, k) {
        assert forall|j: int| 0 <= j < q implies bytes_lt(#[trigger] r[j].0, other) by {
            assert(r[j].0 == es[j].0);
        }
        if q < es.len() {
            assert(r[q].0 == es[q].0);
            lemma_lt_asymmetric_or_equal(es[q].0, other);
        }
        lemma_slot_is(r, other, q);
        if q < es.len() && q != p {
            assert(r[q] == es[q]);
        }
    } else {
        lemma_lt_total(k, other);
        if bytes_lt(other, k) {
            // `other` stands before the new entry
            assert(q <= p) by {
                if p < q {
                    assert(bytes_lt(es[p].0, other));
                    assert(bytes_lt(k, es[p].0));
                    lemma_lt_transitive(k, es[p].0, other);
                    lemma_lt_asymmetric(k, other);
                }
            }
            assert forall|j: int| 0 <= j < q implies bytes_lt(#[trigger] r[j].0, other) by {
                assert(r[j] == es[j]);
            }
            if q < p {
                assert(r[q] == es[q]);
                lemma_lt_asymmetric_or_equal(es[q].0, other);
            } else {
                assert(r[q] == (k, v));
                lemma_lt_asymmetric(other, k);
            }
            lemma_slot_is(r, other, q);
            if q < es.len() && q == p {
                // the entry at `q` in `es` comes after `k`, so it is not `other`
                if es[q].0 == other {
                    assert(bytes_lt(k, es[q].0));
                    lemma_lt_asymmetric(other, k);
                }
            }
        } else {
            // `other` stands after the new entry
            assert(bytes_lt(k, other));
            assert(p <= q) by {
                if q < p {
                    assert(bytes_lt(es[q].0, k));
                    if es[q].0 == other {
                        lemma_lt_asymmetric(k, other);
                    } else {
                        assert(bytes_lt(other, es[q].0));
                        lemma_lt_transitive(other, es[q].0, k);
                        lemma_lt_asymmetric(k, other);
                    }
                }
            }
            assert forall|j: int| 0 <= j < q + 1 implies bytes_lt(#[trigger] r[j].0, other) by {
                if j < p {
                    assert(r[j] == es[j]);
                } else if j == p {
                    assert(r[j] == (k, v));
                } else {
                    assert(r[j] == es[j - 1]);
                }
            }
            if q < es.len() {
                assert(r[q + 1] == es[q]);
                lemma_lt_asymmetric_or_equal(es[q].0, other);
            }
            lemma_slot_is(r, other, q + 1);
        }
    }
}

/// A key that does not come before `k` is `k` or comes after it; in both
/// cases it does not come before `k`.
pub proof fn lemma_lt_asymmetric_or_equal(a: Seq<u8>, k: Seq<u8>)
    requires
        bytes_lt(k, a) || a == k,
    ensures
        !bytes_lt(a, k),
{
    if a == k {
        lemma_lt_irreflexive(k);
    } else {
        lemma_lt_asymmetric(k, a);
    }
}

/// Taking an entry out keeps the list sorted.
pub proof fn lemma_remove_sorted<V>(es: Seq<(Seq<u8>, V)>, k: Seq<u8>)
    requires
        sorted(es),
    ensures
        sorted(remove(es, k)),
{
    let r = remove(es, k);
    lemma_lower_bound(es, k, 0);
    if has_key(es, k) {
        let p = slot(es, k);
        assert forall|i: int, j: int| 0 <= i < j < r.len() implies bytes_lt(
            #[trigger] r[i].0,
            #[trigger] r[j].0,
        ) by {
            let a = if i < p { i } else { i + 1 };
            let b = if j < p { j } else { j + 1 };
            assert(r[i] == es[a] && r[j] == es[b]);
        }
    }
}

/// The value at a position of a sorted list is the value of its key.
pub proof fn lemma_lookup_at<V>(es: Seq<(Seq<u8>, V)>, i: int)
    requires
        sorted(es),
        0 <= i < es.len(),
    ensures
        slot(es, es[i].0) == i,
        lookup(es, es[i].0) == Some(es[i].1),
{
    lemma_lt_irreflexive(es[i].0);
    lemma_slot_is(es, es[i].0, i);
}

/// Two lists hold the same value, or none, for every key.
pub open spec fn same_lookups<V>(a: Seq<(Seq<u8>, V)>, b: Seq<(Seq<u8>, V)>) -> bool {
    forall|k: Seq<u8>| lookup(a, k) == lookup(b, k)
}

/// An entry of one of two sorted lists with the same lookups stands in the
/// other too, and not before the place that it has in the first.
pub proof fn lemma_entry_shared<V>(a: Seq<(Seq<u8>, V)>, b: Seq<(Seq<u8>, V)>, i: int)
    requires
        sorted(a),
        sorted(b),
        same_lookups(a, b),
        0 <= i < a.len(),
    ensures
        i <= slot(b, a[i].0) < b.len(),
        b[slot(b, a[i].0)] == a[i],
    decreases i,
{
    lemma_lookup_at(a, i);
    assert(lookup(b, a[i].0) == lookup(a, a[i].0));
    lemma_lower_bound(b, a[i].0, 0);
    let j = slot(b, a[i].0);
    if i > 0 {
        lemma_entry_shared(a, b, i - 1);
        let before = slot(b, a[i - 1].0);
        assert(bytes_lt(a[i - 1].0, a[i].0));
        if j <= before {
            if j < before {
                assert(bytes_lt(b[j].0, b[before].0));
                lemma_lt_asymmetric(a[i - 1].0, a[i].0);
            } else {
                lemma_lt_irreflexive(a[i].0);
            }
        }
    }
}

/// A sorted list is what it holds: two sorted lists with the same value for
/// every key are the same list.
pub proof fn lemma_sorted_unique<V>(a: Seq<(Seq<u8>, V)>, b: Seq<(Seq<u8>, V)>)
    requires
        sorted(a),
        sorted(b),
        same_lookups(a, b),
    ensures
        a == b,
{
    assert(same_lookups(b, a));
    assert forall|i: int| 0 <= i < a.len() implies i < b.len() && #[trigger] a[i] == b[i] by {
        lemma_entry_shared(a, b, i);
        let j = slot(b, a[i].0);
        lemma_entry_shared(b, a, j);
        lemma_lookup_at(a, i);
    }
    if a.len() < b.len() {
        let j = a.len() as int;
        lemma_entry_shared(b, a, j);
    }
    if b.len() < a.len() {
        let i = b.len() as int;
        lemma_entry_shared(a, b, i);
    }
    assert(a =~= b);
}

/// The order in which two keys are set does not show in the list.
pub proof fn lemma_put_commutes<V>(es: Seq<(Seq<u8>, V)>, k1: Seq<u8>, v1: V, k2: Seq<u8>, v2: V)
    requires
        sorted(es),
        k1 != k2,
    ensures
        put(put(es, k1, v1), k2, v2) == put(put(es, k2, v2), k1, v1),
{
    let a = put(put(es, k1, v1), k2, v2);
    let b = put(put(es, k2, v2), k1, v1);
    lemma_put_sorted(es, k1, v1);
    lemma_put_sorted(es, k2, v2);
    lemma_put_sorted(put(es, k1, v1), k2, v2);
    lemma_put_sorted(put(es, k2, v2), k1, v1);
    assert forall|k: Seq<u8>| lookup(a, k) == lookup(b, k) by {
        lemma_lookup_put(es, k1, v1, k);
        lemma_lookup_put(put(es, k1, v1), k2, v2, k);
        lemma_lookup_put(es, k2, v2, k);
        lemma_lookup_put(put(es, k2, v2), k1, v1, k);
    }
    lemma_sorted_unique(a, b);
}

} // verus!
