//! Association sequences: the mathematical model behind every keyed store in
//! this crate. A store is a sequence of key-value pairs; lookup returns the
//! value of the first pair with a matching key. All stores maintain key
//! uniqueness, so "first" is also "only".

use vstd::prelude::*;

verus! {

/// The value of the first pair of `s` whose key is `k`, if any.
pub open spec fn assoc_find<K, V>(s: Seq<(K, V)>, k: K) -> Option<V>
    decreases s.len(),
{
    if s.len() == 0 {
        None
    } else if s[0].0 == k {
        Some(s[0].1)
    } else {
        assoc_find(s.drop_first(), k)
    }
}

/// `s` with every pair whose key is `k` removed, order otherwise preserved.
pub open spec fn assoc_remove<K, V>(s: Seq<(K, V)>, k: K) -> Seq<(K, V)>
    decreases s.len(),
{
    if s.len() == 0 {
        s
    } else if s[0].0 == k {
        assoc_remove(s.drop_first(), k)
    } else {
        seq![s[0]] + assoc_remove(s.drop_first(), k)
    }
}

/// No two pairs of `s` share a key.
pub open spec fn unique_keys<K, V>(s: Seq<(K, V)>) -> bool {
    forall|i: int, j: int| 0 <= i < j < s.len() ==> (#[trigger] s[i]).0 != (#[trigger] s[j]).0
}

/// If no pair of `s` carries key `k`, lookup fails.
pub proof fn lemma_assoc_find_none<K, V>(s: Seq<(K, V)>, k: K)
    requires
        forall|i: int| 0 <= i < s.len() ==> (#[trigger] s[i]).0 != k,
    ensures
        assoc_find(s, k) is None,
    decreases s.len(),
{
    if s.len() > 0 {
        let rest = s.drop_first();
        assert(forall|i: int| 0 <= i < rest.len() ==> #[trigger] rest[i] == s[i + 1]);
        lemma_assoc_find_none(rest, k);
    }
}

/// If pair `i` carries key `k` and no earlier pair does, lookup returns its
/// value.
pub proof fn lemma_assoc_find_at<K, V>(s: Seq<(K, V)>, k: K, i: int)
    requires
        0 <= i < s.len(),
        s[i].0 == k,
        forall|j: int| 0 <= j < i ==> (#[trigger] s[j]).0 != k,
    ensures
        assoc_find(s, k) == Some(s[i].1),
    decreases s.len(),
{
    if i > 0 {
        let rest = s.drop_first();
        assert(forall|j: int| 0 <= j < rest.len() ==> #[trigger] rest[j] == s[j + 1]);
        lemma_assoc_find_at(rest, k, i - 1);
    }
}

/// Under unique keys, any pair carrying key `k` is the one lookup returns.
pub proof fn lemma_assoc_find_unique<K, V>(s: Seq<(K, V)>, k: K, i: int)
    requires
        unique_keys(s),
        0 <= i < s.len(),
        s[i].0 == k,
    ensures
        assoc_find(s, k) == Some(s[i].1),
{
    lemma_assoc_find_at(s, k, i);
}

/// Replacing pair `i` in place, key kept, changes lookup only for that key.
pub proof fn lemma_assoc_find_update<K, V>(s: Seq<(K, V)>, i: int, t: (K, V), k2: K)
    requires
        0 <= i < s.len(),
        t.0 == s[i].0,
    ensures
        s[i].0 == k2 && (forall|j: int| 0 <= j < i ==> (#[trigger] s[j]).0 != k2)
            ==> assoc_find(s.update(i, t), k2) == Some(t.1),
        t.0 != k2 ==> assoc_find(s.update(i, t), k2) == assoc_find(s, k2),
    decreases s.len(),
{
    let s2 = s.update(i, t);
    assert(s2.len() == s.len());
    if s.len() > 0 {
        if i == 0 {
            if t.0 != k2 {
                assert(s2.drop_first() =~= s.drop_first());
            } else {
                assert(s2[0] == t);
            }
        } else {
            assert(s2[0] == s[0]);
            assert(s2.drop_first() =~= s.drop_first().update(i - 1, t));
            assert(forall|j: int|
                0 <= j < s.drop_first().len() ==> #[trigger] s.drop_first()[j] == s[j + 1]);
            lemma_assoc_find_update(s.drop_first(), i - 1, t, k2);
        }
    }
}

/// Appending a pair changes lookup only for keys that previously missed.
pub proof fn lemma_assoc_find_push<K, V>(s: Seq<(K, V)>, t: (K, V), k2: K)
    ensures
        assoc_find(s, k2) is Some ==> assoc_find(s.push(t), k2) == assoc_find(s, k2),
        assoc_find(s, k2) is None && t.0 == k2 ==> assoc_find(s.push(t), k2) == Some(t.1),
        assoc_find(s, k2) is None && t.0 != k2 ==> assoc_find(s.push(t), k2) is None,
    decreases s.len(),
{
    let s2 = s.push(t);
    assert(s2.len() == s.len() + 1);
    if s.len() == 0 {
        assert(s2[0] == t);
        assert(s2.drop_first() =~= Seq::<(K, V)>::empty());
        if t.0 == k2 {
            assert(assoc_find(s2, k2) == Some(t.1));
        } else {
            assert(assoc_find(s2, k2) == assoc_find(s2.drop_first(), k2));
        }
    } else {
        assert(s2[0] == s[0]);
        assert(s2.drop_first() =~= s.drop_first().push(t));
        lemma_assoc_find_push(s.drop_first(), t, k2);
        if s[0].0 == k2 {
            assert(assoc_find(s, k2) == Some(s[0].1));
            assert(assoc_find(s2, k2) == Some(s[0].1));
        } else {
            assert(assoc_find(s, k2) == assoc_find(s.drop_first(), k2));
            assert(assoc_find(s2, k2) == assoc_find(s2.drop_first(), k2));
        }
    }
}

/// Removing key `k` makes its lookup fail and leaves every other key's lookup
/// unchanged; uniqueness survives.
pub proof fn lemma_assoc_remove<K, V>(s: Seq<(K, V)>, k: K, k2: K)
    ensures
        assoc_find(assoc_remove(s, k), k) is None,
        k2 != k ==> assoc_find(assoc_remove(s, k), k2) == assoc_find(s, k2),
        unique_keys(s) ==> unique_keys(assoc_remove(s, k)),
    decreases s.len(),
{
    let r = assoc_remove(s, k);
    if s.len() == 0 {
    } else {
        let rest = s.drop_first();
        assert(forall|i: int| 0 <= i < rest.len() ==> #[trigger] rest[i] == s[i + 1]);
        lemma_assoc_remove(rest, k, k2);
        if unique_keys(s) {
            assert(unique_keys(rest));
        }
        if s[0].0 == k {
        } else {
            let rr = assoc_remove(rest, k);
            assert(r == seq![s[0]] + rr);
            assert(r[0] == s[0]);
            assert(r.drop_first() =~= rr);
            if unique_keys(s) && unique_keys(rr) {
                lemma_assoc_remove_entries(rest, k);
                assert(forall|i: int, j: int|
                    0 <= i < j < r.len() ==> (#[trigger] r[i]).0 != (#[trigger] r[j]).0) by {
                    assert(forall|j: int| 0 <= j < rr.len() ==> #[trigger] r[j + 1] == rr[j]);
                    assert(forall|j: int| 0 <= j < rr.len() ==> rest.contains(#[trigger] rr[j]));
                    assert(forall|i: int| 0 <= i < rest.len() ==> (#[trigger] rest[i]).0 != s[0].0);
                }
            }
        }
    }
}

/// Every pair that survives a removal was present before.
pub proof fn lemma_assoc_remove_entries<K, V>(s: Seq<(K, V)>, k: K)
    ensures
        forall|j: int|
            0 <= j < assoc_remove(s, k).len() ==> s.contains(#[trigger] assoc_remove(s, k)[j]),
    decreases s.len(),
{
    if s.len() > 0 {
        let rest = s.drop_first();
        lemma_assoc_remove_entries(rest, k);
        assert(forall|j: int| 0 <= j < rest.len() ==> #[trigger] rest[j] == s[j + 1]);
        assert(forall|j: int| 0 <= j < rest.len() ==> s.contains(#[trigger] rest[j]));
        if s[0].0 == k {
            assert(forall|j: int|
                0 <= j < assoc_remove(rest, k).len()
                    ==> rest.contains(#[trigger] assoc_remove(rest, k)[j]));
        } else {
            let r = assoc_remove(s, k);
            let rr = assoc_remove(rest, k);
            assert(r == seq![s[0]] + rr);
            assert(forall|j: int| 0 <= j < r.len() ==> s.contains(#[trigger] r[j])) by {
                assert(r[0] == s[0]);
                assert(s.contains(s[0]));
                assert(forall|j: int| 1 <= j < r.len() ==> #[trigger] r[j] == rr[j - 1]);
            }
        }
    }
}

/// Removing the only pair with key `k`, sitting at index `i`, is index
/// removal.
pub proof fn lemma_assoc_remove_is_index_remove<K, V>(s: Seq<(K, V)>, k: K, i: int)
    requires
        unique_keys(s),
        0 <= i < s.len(),
        s[i].0 == k,
    ensures
        assoc_remove(s, k) =~= s.remove(i),
    decreases s.len(),
{
    let rest = s.drop_first();
    assert(forall|j: int| 0 <= j < rest.len() ==> #[trigger] rest[j] == s[j + 1]);
    if i == 0 {
        assert(forall|j: int| 0 <= j < rest.len() ==> (#[trigger] rest[j]).0 != k);
        lemma_assoc_remove_id(rest, k);
        assert(s.remove(0) =~= rest);
    } else {
        assert(s[0].0 != k);
        assert(unique_keys(rest));
        assert(rest[i - 1] == s[i]);
        lemma_assoc_remove_is_index_remove(rest, k, i - 1);
        assert(assoc_remove(s, k) == seq![s[0]] + assoc_remove(rest, k));
        assert(s.remove(i) =~= seq![s[0]] + rest.remove(i - 1));
    }
}

/// Removal of an absent key changes nothing.
pub proof fn lemma_assoc_remove_id<K, V>(s: Seq<(K, V)>, k: K)
    requires
        forall|i: int| 0 <= i < s.len() ==> (#[trigger] s[i]).0 != k,
    ensures
        assoc_remove(s, k) =~= s,
    decreases s.len(),
{
    if s.len() > 0 {
        let rest = s.drop_first();
        assert(forall|j: int| 0 <= j < rest.len() ==> #[trigger] rest[j] == s[j + 1]);
        lemma_assoc_remove_id(rest, k);
        assert(assoc_remove(s, k) == seq![s[0]] + assoc_remove(rest, k));
    }
}

} // verus!
