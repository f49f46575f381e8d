//! Stable sorting by an integer key.

use vstd::prelude::*;

verus! {

/// Put `x` behind the last element whose key does not exceed its own.
pub open spec fn insert_by_key<T>(s: Seq<T>, x: T, key: spec_fn(T) -> int) -> Seq<T>
    decreases s.len(),
{
    if s.len() == 0 || key(s.last()) <= key(x) {
        s.push(x)
    } else {
        insert_by_key(s.drop_last(), x, key).push(s.last())
    }
}

/// The elements in ascending order of their keys, equal keys in their former order.
pub open spec fn sort_by_key<T>(s: Seq<T>, key: spec_fn(T) -> int) -> Seq<T>
    decreases s.len(),
{
    if s.len() == 0 {
        s
    } else {
        insert_by_key(sort_by_key(s.drop_last(), key), s.last(), key)
    }
}

/// Whether the keys never descend.
pub open spec fn ascending<T>(s: Seq<T>, key: spec_fn(T) -> int) -> bool {
    forall|i: int, j: int| 0 <= i <= j < s.len() ==> key(#[trigger] s[i]) <= key(#[trigger] s[j])
}

/// The elements whose key is `k`, in order.
pub open spec fn with_key<T>(s: Seq<T>, key: spec_fn(T) -> int, k: int) -> Seq<T>
    decreases s.len(),
{
    if s.len() == 0 {
        s
    } else if key(s.last()) == k {
        with_key(s.drop_last(), key, k).push(s.last())
    } else {
        with_key(s.drop_last(), key, k)
    }
}

/// Where an insertion puts its element.
pub proof fn lemma_insert_at<T>(s: Seq<T>, x: T, key: spec_fn(T) -> int, k: int)
    requires
        0 <= k <= s.len(),
        k > 0 ==> key(s[k - 1]) <= key(x),
        forall|i: int| k <= i < s.len() ==> key(#[trigger] s[i]) > key(x),
    ensures
        insert_by_key(s, x, key) == s.insert(k, x),
    decreases s.len(),
{
    if k == s.len() {
        assert(s.insert(k, x) =~= s.push(x));
    } else {
        assert(key(s[s.len() - 1]) > key(x));
        lemma_insert_at(s.drop_last(), x, key, k);
        assert(s.drop_last().insert(k, x).push(s.last()) =~= s.insert(k, x));
    }
}

/// Inserting adds exactly the element.
pub proof fn lemma_insert_multiset<T>(s: Seq<T>, x: T, key: spec_fn(T) -> int)
    ensures
        insert_by_key(s, x, key).len() == s.len() + 1,
        insert_by_key(s, x, key).to_multiset() =~= s.to_multiset().insert(x),
    decreases s.len(),
{
    broadcast use vstd::seq_lib::group_to_multiset_ensures;

    if !(s.len() == 0 || key(s.last()) <= key(x)) {
        lemma_insert_multiset(s.drop_last(), x, key);
        assert(s =~= s.drop_last().push(s.last()));
    }
}

/// Inserting into an ascending row keeps it ascending.
pub proof fn lemma_insert_ascending<T>(s: Seq<T>, x: T, key: spec_fn(T) -> int)
    requires
        ascending(s, key),
    ensures
        ascending(insert_by_key(s, x, key), key),
        forall|i: int|
            0 <= i < insert_by_key(s, x, key).len() ==> (key(
                #[trigger] insert_by_key(s, x, key)[i],
            ) <= key(x) || s.len() > 0 && key(insert_by_key(s, x, key)[i]) <= key(s.last())),
    decreases s.len(),
{
    lemma_insert_multiset(s, x, key);
    let r = insert_by_key(s, x, key);
    if s.len() == 0 || key(s.last()) <= key(x) {
        assert forall|i: int, j: int| 0 <= i <= j < r.len() implies key(#[trigger] r[i]) <= key(
            #[trigger] r[j],
        ) by {
            if i < s.len() {
                assert(key(s[i]) <= key(s[s.len() - 1]));
                if j < s.len() {
                    assert(key(s[i]) <= key(s[j]));
                }
            }
        }
    } else {
        let t = s.drop_last();
        assert(ascending(t, key));
        lemma_insert_ascending(t, x, key);
        let q = insert_by_key(t, x, key);
        assert(r == q.push(s.last()));
        assert(t.len() > 0 ==> key(s[t.len() - 1]) <= key(s[s.len() - 1]));
        assert forall|i: int, j: int| 0 <= i <= j < r.len() implies key(#[trigger] r[i]) <= key(
            #[trigger] r[j],
        ) by {
            if j < q.len() {
                assert(key(q[i]) <= key(q[j]));
            } else if i < q.len() {
                assert(key(q[i]) <= key(x) || t.len() > 0 && key(q[i]) <= key(t.last()));
            }
        }
        assert forall|i: int| 0 <= i < r.len() implies (key(#[trigger] r[i]) <= key(x) || s.len()
            > 0 && key(r[i]) <= key(s.last())) by {
            if i < q.len() {
                assert(key(q[i]) <= key(x) || t.len() > 0 && key(q[i]) <= key(t.last()));
            }
        }
    }
}

/// Inserting keeps the order among equal keys, the new element last.
pub proof fn lemma_insert_stable<T>(s: Seq<T>, x: T, key: spec_fn(T) -> int, k: int)
    requires
        ascending(s, key),
    ensures
        with_key(insert_by_key(s, x, key), key, k) == (if key(x) == k {
            with_key(s, key, k).push(x)
        } else {
            with_key(s, key, k)
        }),
    decreases s.len(),
{
    if s.len() == 0 || key(s.last()) <= key(x) {
        assert(s.push(x).drop_last() =~= s);
    } else {
        let t = s.drop_last();
        assert(ascending(t, key));
        lemma_insert_stable(t, x, key, k);
        let q = insert_by_key(t, x, key);
        assert(q.push(s.last()).drop_last() =~= q);
    }
}

/// Sorting yields the same elements in ascending order, and keeps the order among equal keys.
pub proof fn lemma_sort<T>(s: Seq<T>, key: spec_fn(T) -> int)
    ensures
        sort_by_key(s, key).len() == s.len(),
        sort_by_key(s, key).to_multiset() =~= s.to_multiset(),
        ascending(sort_by_key(s, key), key),
        forall|k: int| #[trigger] with_key(sort_by_key(s, key), key, k) == with_key(s, key, k),
    decreases s.len(),
{
    broadcast use vstd::seq_lib::group_to_multiset_ensures;

    if s.len() > 0 {
        let t = sort_by_key(s.drop_last(), key);
        lemma_sort(s.drop_last(), key);
        lemma_insert_multiset(t, s.last(), key);
        lemma_insert_ascending(t, s.last(), key);
        assert(s =~= s.drop_last().push(s.last()));
        assert forall|k: int| #[trigger]
            with_key(sort_by_key(s, key), key, k) == with_key(s, key, k) by {
            lemma_insert_stable(t, s.last(), key, k);
        }
    }
}

} // verus!
