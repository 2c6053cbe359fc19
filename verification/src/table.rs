//! Keyed lookup over sequences of records.
//!
//! Every table of the store is a sequence of records with a distinguished
//! text key. These definitions give each table the same vocabulary: whether
//! a key is present, the record it names, and how removal and insertion of
//! records move a lookup.

use vstd::prelude::*;

verus! {

/// No two records of `s` share a key.
pub open spec fn unique_by<T>(s: Seq<T>, key: spec_fn(T) -> Seq<char>) -> bool {
    forall|i: int, j: int| 0 <= i < j < s.len() ==> key(s[i]) != key(s[j])
}

/// Some record of `s` carries the key `k`.
pub open spec fn has_key<T>(s: Seq<T>, key: spec_fn(T) -> Seq<char>, k: Seq<char>) -> bool {
    exists|i: int| 0 <= i < s.len() && key(s[i]) == k
}

/// An index of a record of `s` carrying the key `k`.
pub open spec fn key_index<T>(s: Seq<T>, key: spec_fn(T) -> Seq<char>, k: Seq<char>) -> int {
    choose|i: int| 0 <= i < s.len() && key(s[i]) == k
}

/// The record of `s` named by `k`, if any.
pub open spec fn lookup<T>(s: Seq<T>, key: spec_fn(T) -> Seq<char>, k: Seq<char>) -> Option<T> {
    if has_key(s, key, k) {
        Some(s[key_index(s, key, k)])
    } else {
        None
    }
}

/// With unique keys, a record seen at index `i` is the one `lookup` names.
pub proof fn lemma_lookup_at<T>(s: Seq<T>, key: spec_fn(T) -> Seq<char>, i: int)
    requires
        unique_by(s, key),
        0 <= i < s.len(),
    ensures
        lookup(s, key, key(s[i])) == Some(s[i]),
{
    let k = key(s[i]);
    assert(has_key(s, key, k));
    let j = key_index(s, key, k);
    assert(0 <= j < s.len() && key(s[j]) == k);
    if i != j {
        if i < j {
            assert(key(s[i]) != key(s[j]));
        } else {
            assert(key(s[j]) != key(s[i]));
        }
    }
}

/// Removing the record at `idx` does not move a lookup for another key.
pub proof fn lemma_lookup_remove<T>(
    s: Seq<T>,
    key: spec_fn(T) -> Seq<char>,
    idx: int,
    k: Seq<char>,
)
    requires
        unique_by(s, key),
        0 <= idx < s.len(),
        k != key(s[idx]),
    ensures
        lookup(s.remove(idx), key, k) == lookup(s, key, k),
        unique_by(s.remove(idx), key),
{
    let t = s.remove(idx);
    assert forall|i: int, j: int| 0 <= i < j < t.len() implies key(t[i]) != key(t[j]) by {
        let i0: int = if i < idx { i } else { i + 1 };
        let j0: int = if j < idx { j } else { j + 1 };
        assert(t[i] == s[i0] && t[j] == s[j0]);
    }
    if has_key(s, key, k) {
        let i = key_index(s, key, k);
        assert(0 <= i < s.len() && key(s[i]) == k);
        let i2: int = if i < idx { i } else { i - 1 };
        assert(t[i2] == s[i]);
        assert(has_key(t, key, k));
        lemma_lookup_at(t, key, i2);
        lemma_lookup_at(s, key, i);
    }
    if has_key(t, key, k) {
        let i = key_index(t, key, k);
        let i0: int = if i < idx { i } else { i + 1 };
        assert(t[i] == s[i0]);
        assert(has_key(s, key, k));
    }
}

/// Removing a record removes its key entirely when keys are unique.
pub proof fn lemma_remove_own_key<T>(s: Seq<T>, key: spec_fn(T) -> Seq<char>, idx: int)
    requires
        unique_by(s, key),
        0 <= idx < s.len(),
    ensures
        !has_key(s.remove(idx), key, key(s[idx])),
        unique_by(s.remove(idx), key),
{
    let t = s.remove(idx);
    let kr = key(s[idx]);
    assert forall|i: int| 0 <= i < t.len() implies key(t[i]) != kr by {
        let i0: int = if i < idx { i } else { i + 1 };
        assert(t[i] == s[i0]);
    }
    assert forall|i: int, j: int| 0 <= i < j < t.len() implies key(t[i]) != key(t[j]) by {
        let i0: int = if i < idx { i } else { i + 1 };
        let j0: int = if j < idx { j } else { j + 1 };
        assert(t[i] == s[i0] && t[j] == s[j0]);
    }
}

/// Inserting a record with a fresh key: its own lookup finds it, every other
/// lookup is unmoved, and keys stay unique.
pub proof fn lemma_lookup_insert<T>(
    s: Seq<T>,
    key: spec_fn(T) -> Seq<char>,
    idx: int,
    x: T,
)
    requires
        unique_by(s, key),
        0 <= idx <= s.len(),
        !has_key(s, key, key(x)),
    ensures
        unique_by(s.insert(idx, x), key),
        lookup(s.insert(idx, x), key, key(x)) == Some(x),
        forall|k: Seq<char>| k != key(x) ==> #[trigger] lookup(s.insert(idx, x), key, k)
            == lookup(s, key, k),
{
    let t = s.insert(idx, x);
    assert(t[idx] == x);
    assert forall|i: int, j: int| 0 <= i < j < t.len() implies key(t[i]) != key(t[j]) by {
        if i == idx {
            let j0 = j - 1;
            assert(t[j] == s[j0]);
            assert(!(0 <= j0 < s.len() && key(s[j0]) == key(x)));
        } else if j == idx {
            assert(t[i] == s[i]);
            assert(!(0 <= i < s.len() && key(s[i]) == key(x)));
        } else {
            let i0: int = if i < idx { i } else { i - 1 };
            let j0: int = if j < idx { j } else { j - 1 };
            assert(t[i] == s[i0] && t[j] == s[j0]);
        }
    }
    lemma_lookup_at(t, key, idx);
    assert forall|k: Seq<char>| k != key(x) implies #[trigger] lookup(t, key, k) == lookup(
        s,
        key,
        k,
    ) by {
        if has_key(s, key, k) {
            let i = key_index(s, key, k);
            let i2: int = if i < idx { i } else { i + 1 };
            assert(t[i2] == s[i]);
            lemma_lookup_at(t, key, i2);
            lemma_lookup_at(s, key, i);
        }
        if has_key(t, key, k) {
            let i = key_index(t, key, k);
            assert(i != idx);
            let i0: int = if i < idx { i } else { i - 1 };
            assert(t[i] == s[i0]);
            assert(has_key(s, key, k));
        }
    }
}

/// Filtering one record keeps it exactly when the predicate holds.
pub proof fn lemma_filter_one<T>(x: T, pred: spec_fn(T) -> bool)
    ensures
        seq![x].filter(pred) == if pred(x) {
            seq![x]
        } else {
            Seq::<T>::empty()
        },
{
    reveal(Seq::filter);
    assert(seq![x].drop_last() =~= Seq::<T>::empty());
    assert(Seq::<T>::empty().filter(pred) =~= Seq::<T>::empty());
    if pred(x) {
        assert(seq![x].filter(pred) =~= Seq::<T>::empty().push(x));
        assert(Seq::<T>::empty().push(x) =~= seq![x]);
    }
}

/// How a filter grows when one record is appended.
pub proof fn lemma_filter_push<T>(a: Seq<T>, x: T, pred: spec_fn(T) -> bool)
    ensures
        a.push(x).filter(pred) == if pred(x) {
            a.filter(pred).push(x)
        } else {
            a.filter(pred)
        },
{
    assert(a.push(x) =~= a + seq![x]);
    Seq::filter_distributes_over_add(a, seq![x], pred);
    lemma_filter_one(x, pred);
    if pred(x) {
        assert(a.filter(pred) + seq![x] =~= a.filter(pred).push(x));
    } else {
        assert(a.filter(pred) + Seq::<T>::empty() =~= a.filter(pred));
    }
}

/// Every record of a filtered sequence comes from the original.
pub proof fn lemma_filter_sub<T>(s: Seq<T>, pred: spec_fn(T) -> bool)
    ensures
        forall|x: T| #[trigger] s.filter(pred).contains(x) ==> s.contains(x),
    decreases s.len(),
{
    reveal(Seq::filter);
    if s.len() > 0 {
        let a = s.drop_last();
        lemma_filter_sub(a, pred);
        assert forall|x: T| #[trigger] s.filter(pred).contains(x) implies s.contains(x) by {
            if a.filter(pred).contains(x) {
                let i = choose|i: int| 0 <= i < a.len() && a[i] == x;
                assert(s[i] == x);
            } else {
                assert(x == s.last());
                assert(s[s.len() - 1] == x);
            }
        }
    }
}

/// Filtering keeps keys unique.
pub proof fn lemma_filter_unique<T>(s: Seq<T>, key: spec_fn(T) -> Seq<char>, pred: spec_fn(T) -> bool)
    requires
        unique_by(s, key),
    ensures
        unique_by(s.filter(pred), key),
    decreases s.len(),
{
    reveal(Seq::filter);
    if s.len() > 0 {
        let a = s.drop_last();
        assert forall|i: int, j: int| 0 <= i < j < a.len() implies key(a[i]) != key(a[j]) by {
            assert(a[i] == s[i] && a[j] == s[j]);
        }
        lemma_filter_unique(a, key, pred);
        if pred(s.last()) {
            lemma_filter_sub(a, pred);
            let t = s.filter(pred);
            assert(t == a.filter(pred).push(s.last()));
            assert forall|i: int, j: int| 0 <= i < j < t.len() implies key(t[i]) != key(t[j]) by {
                if j == t.len() - 1 {
                    assert(a.filter(pred).contains(t[i]));
                    let i0 = choose|i0: int| 0 <= i0 < a.len() && a[i0] == t[i];
                    assert(s[i0] == t[i]);
                    assert(key(s[i0]) != key(s[s.len() - 1]));
                } else {
                    assert(t[i] == a.filter(pred)[i] && t[j] == a.filter(pred)[j]);
                }
            }
        }
    }
}

/// Every record of a filtered sequence satisfies the predicate, and a lookup
/// for a key the predicate rules out fails.
pub proof fn lemma_filter_killed_key<T>(s: Seq<T>, key: spec_fn(T) -> Seq<char>, k: Seq<char>)
    ensures
        !has_key(s.filter(|x: T| key(x) != k), key, k),
{
    let pred = |x: T| key(x) != k;
    broadcast use vstd::seq_lib::group_filter_ensures;

    let t = s.filter(pred);
    if has_key(t, key, k) {
        let i = key_index(t, key, k);
        assert(pred(t[i]));
    }
}

/// A filter whose predicate holds of every record keeps the sequence whole.
pub proof fn lemma_filter_all<T>(s: Seq<T>, pred: spec_fn(T) -> bool)
    requires
        forall|i: int| 0 <= i < s.len() ==> pred(#[trigger] s[i]),
    ensures
        s.filter(pred) == s,
    decreases s.len(),
{
    reveal(Seq::filter);
    if s.len() > 0 {
        let a = s.drop_last();
        assert forall|i: int| 0 <= i < a.len() implies pred(#[trigger] a[i]) by {
            assert(a[i] == s[i]);
        }
        lemma_filter_all(a, pred);
        assert(pred(s.last()));
        assert(a.push(s.last()) =~= s);
    }
}

/// A filter whose predicate keeps every record of key `k` moves no lookup
/// for `k`.
pub proof fn lemma_lookup_filter<T>(
    s: Seq<T>,
    key: spec_fn(T) -> Seq<char>,
    pred: spec_fn(T) -> bool,
    k: Seq<char>,
)
    requires
        unique_by(s, key),
        forall|x: T| key(x) == k ==> #[trigger] pred(x),
    ensures
        lookup(s.filter(pred), key, k) == lookup(s, key, k),
{
    broadcast use vstd::seq_lib::group_filter_ensures;

    let f = s.filter(pred);
    lemma_filter_unique(s, key, pred);
    lemma_filter_sub(s, pred);
    if has_key(s, key, k) {
        let i = key_index(s, key, k);
        assert(0 <= i < s.len() && key(s[i]) == k);
        assert(pred(s[i]));
        assert(f.contains(s[i]));
        let j = choose|j: int| 0 <= j < f.len() && f[j] == s[i];
        lemma_lookup_at(f, key, j);
        lemma_lookup_at(s, key, i);
    } else {
        if has_key(f, key, k) {
            let j = key_index(f, key, k);
            assert(f.contains(f[j]));
            assert(s.contains(f[j]));
            let i = choose|i: int| 0 <= i < s.len() && s[i] == f[j];
            assert(has_key(s, key, k));
        }
    }
}

/// Inserting a record into a sequence adds it to the sequence's multiset.
pub proof fn lemma_to_multiset_insert<T>(s: Seq<T>, idx: int, x: T)
    requires
        0 <= idx <= s.len(),
    ensures
        s.insert(idx, x).to_multiset() =~= s.to_multiset().insert(x),
{
    broadcast use vstd::seq_lib::group_to_multiset_ensures;

    let t = s.insert(idx, x);
    assert(t.remove(idx) =~= s);
    assert(t[idx] == x);
    assert(s.to_multiset() =~= t.to_multiset().remove(x));
    assert(t.contains(x));
    assert(t.to_multiset().count(x) > 0);
    assert forall|y: T| t.to_multiset().remove(x).insert(x).count(y)
        == t.to_multiset().count(y) by {
    }
}

} // verus!
