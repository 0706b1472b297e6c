//! Spec-level helpers for association sequences: sequences of key/value
//! pairs with pairwise-distinct keys. The registries (rooms, channels,
//! counters, dedup entries) all keep a `Vec` whose view is such a sequence,
//! and state their contracts through these functions.

use vstd::prelude::*;

verus! {

/// All keys in the sequence are pairwise distinct.
pub open spec fn uniq_keys<K, V>(s: Seq<(K, V)>) -> bool {
    forall|i: int, j: int|
        #![trigger s[i], s[j]]
        0 <= i < j < s.len() ==> s[i].0 != s[j].0
}

/// Some pair in the sequence carries the key `k`.
pub open spec fn has_key<K, V>(s: Seq<(K, V)>, k: K) -> bool {
    exists|i: int| 0 <= i < s.len() && (#[trigger] s[i]).0 == k
}

/// The position of the pair carrying `k` (meaningful under `uniq_keys`
/// when `has_key` holds).
pub open spec fn idx_of<K, V>(s: Seq<(K, V)>, k: K) -> int {
    choose|i: int| 0 <= i < s.len() && (#[trigger] s[i]).0 == k
}

/// The value stored under `k`.
pub open spec fn value_of<K, V>(s: Seq<(K, V)>, k: K) -> V {
    s[idx_of(s, k)].1
}

/// With distinct keys, a pair found at position `i` is the pair that
/// `idx_of` and `value_of` speak of.
pub proof fn lemma_key_at<K, V>(s: Seq<(K, V)>, k: K, i: int)
    requires
        uniq_keys(s),
        0 <= i < s.len(),
        s[i].0 == k,
    ensures
        has_key(s, k),
        idx_of(s, k) == i,
        value_of(s, k) == s[i].1,
{
    assert(has_key(s, k));
    let j = idx_of(s, k);
    assert(0 <= j < s.len() && s[j].0 == k);
    if i < j {
        assert(s[i].0 != s[j].0);
    } else if j < i {
        assert(s[j].0 != s[i].0);
    }
}

/// Appending a pair under a fresh key keeps the keys distinct, binds the
/// new key to the new value, and leaves every other key untouched.
pub proof fn lemma_push_new<K, V>(s: Seq<(K, V)>, k: K, v: V)
    requires
        uniq_keys(s),
        !has_key(s, k),
    ensures
        uniq_keys(s.push((k, v))),
        has_key(s.push((k, v)), k),
        value_of(s.push((k, v)), k) == v,
        forall|k2: K| k2 != k ==> #[trigger] has_key(s.push((k, v)), k2) == has_key(s, k2),
        forall|k2: K|
            k2 != k && has_key(s, k2) ==> #[trigger] value_of(s.push((k, v)), k2) == value_of(
                s,
                k2,
            ),
{
    let t = s.push((k, v));
    assert(t[s.len() as int] == (k, v));
    assert forall|i: int, j: int| 0 <= i < j < t.len() implies t[i].0 != t[j].0 by {
        if j < s.len() {
            assert(s[i] == t[i] && s[j] == t[j]);
        } else {
            assert(t[j] == (k, v));
            assert(s[i] == t[i]);
            assert(has_key(s, k) <== s[i].0 == k);
        }
    }
    lemma_key_at(t, k, s.len() as int);
    assert forall|k2: K| k2 != k implies #[trigger] has_key(t, k2) == has_key(s, k2) by {
        if has_key(s, k2) {
            let i = idx_of(s, k2);
            assert(t[i] == s[i]);
            assert(has_key(t, k2));
        }
        if has_key(t, k2) {
            let i = choose|i: int| 0 <= i < t.len() && (#[trigger] t[i]).0 == k2;
            assert(i < s.len());
            assert(s[i] == t[i]);
            assert(has_key(s, k2));
        }
    }
    assert forall|k2: K| k2 != k && has_key(s, k2) implies #[trigger] value_of(t, k2) == value_of(
        s,
        k2,
    ) by {
        let i = idx_of(s, k2);
        assert(0 <= i < s.len() && s[i].0 == k2);
        assert(t[i] == s[i]);
        lemma_key_at(t, k2, i);
    }
}

/// Replacing the value at position `i` (key kept) keeps the keys distinct,
/// rebinds that one key, and leaves every other key untouched.
pub proof fn lemma_update_val<K, V>(s: Seq<(K, V)>, i: int, v: V)
    requires
        uniq_keys(s),
        0 <= i < s.len(),
    ensures
        uniq_keys(s.update(i, (s[i].0, v))),
        forall|k2: K| #[trigger]
            has_key(s.update(i, (s[i].0, v)), k2) == has_key(s, k2),
        value_of(s.update(i, (s[i].0, v)), s[i].0) == v,
        forall|k2: K|
            k2 != s[i].0 && has_key(s, k2) ==> #[trigger] value_of(s.update(i, (s[i].0, v)), k2)
                == value_of(s, k2),
{
    let t = s.update(i, (s[i].0, v));
    assert(t.len() == s.len());
    assert(t[i] == (s[i].0, v));
    assert forall|a: int, b: int| 0 <= a < b < t.len() implies t[a].0 != t[b].0 by {
        assert(t[a].0 == s[a].0 && t[b].0 == s[b].0);
        assert(s[a].0 != s[b].0);
    }
    assert forall|k2: K| #[trigger] has_key(t, k2) == has_key(s, k2) by {
        if has_key(s, k2) {
            let a = choose|a: int| 0 <= a < s.len() && (#[trigger] s[a]).0 == k2;
            assert(t[a].0 == s[a].0);
            assert(has_key(t, k2));
        }
        if has_key(t, k2) {
            let a = choose|a: int| 0 <= a < t.len() && (#[trigger] t[a]).0 == k2;
            assert(s[a].0 == t[a].0);
            assert(has_key(s, k2));
        }
    }
    lemma_key_at(t, s[i].0, i);
    assert forall|k2: K| k2 != s[i].0 && has_key(s, k2) implies #[trigger] value_of(t, k2)
        == value_of(s, k2) by {
        let a = idx_of(s, k2);
        assert(0 <= a < s.len() && s[a].0 == k2);
        assert(a != i);
        assert(t[a] == s[a]);
        lemma_key_at(t, k2, a);
    }
}

/// Removing the pair at position `i` keeps the keys distinct, drops that
/// one key, and leaves every other key untouched.
pub proof fn lemma_remove_at<K, V>(s: Seq<(K, V)>, i: int)
    requires
        uniq_keys(s),
        0 <= i < s.len(),
    ensures
        uniq_keys(s.remove(i)),
        !has_key(s.remove(i), s[i].0),
        forall|k2: K| k2 != s[i].0 ==> #[trigger] has_key(s.remove(i), k2) == has_key(s, k2),
        forall|k2: K|
            k2 != s[i].0 && has_key(s, k2) ==> #[trigger] value_of(s.remove(i), k2) == value_of(
                s,
                k2,
            ),
{
    let t = s.remove(i);
    assert(t.len() == s.len() - 1);
    assert forall|j: int| 0 <= j < t.len() implies t[j] == (if j < i {
        s[j]
    } else {
        s[j + 1]
    }) by {
        assert(t == s.subrange(0, i) + s.subrange(i + 1, s.len() as int));
    }
    assert forall|a: int, b: int| 0 <= a < b < t.len() implies t[a].0 != t[b].0 by {
        let a2 = if a < i { a } else { a + 1 };
        let b2 = if b < i { b } else { b + 1 };
        assert(t[a] == s[a2] && t[b] == s[b2]);
        assert(s[a2].0 != s[b2].0);
    }
    assert forall|j: int| 0 <= j < t.len() implies t[j].0 != s[i].0 by {
        let j2 = if j < i { j } else { j + 1 };
        assert(t[j] == s[j2] && j2 != i);
        if j2 < i {
            assert(s[j2].0 != s[i].0);
        } else {
            assert(s[i].0 != s[j2].0);
        }
    }
    assert forall|k2: K| k2 != s[i].0 implies #[trigger] has_key(t, k2) == has_key(s, k2) by {
        if has_key(s, k2) {
            let a = idx_of(s, k2);
            assert(0 <= a < s.len() && s[a].0 == k2);
            let a2 = if a < i { a } else { a - 1 };
            assert(t[a2] == s[a]);
            assert(has_key(t, k2));
        }
        if has_key(t, k2) {
            let a = choose|a: int| 0 <= a < t.len() && (#[trigger] t[a]).0 == k2;
            let a2 = if a < i { a } else { a + 1 };
            assert(s[a2] == t[a]);
            assert(has_key(s, k2));
        }
    }
    assert forall|k2: K| k2 != s[i].0 && has_key(s, k2) implies #[trigger] value_of(t, k2)
        == value_of(s, k2) by {
        let a = idx_of(s, k2);
        assert(0 <= a < s.len() && s[a].0 == k2);
        lemma_key_at(s, k2, a);
        let a2 = if a < i { a } else { a - 1 };
        assert(t[a2] == s[a]);
        lemma_key_at(t, k2, a2);
    }
}

} // verus!
