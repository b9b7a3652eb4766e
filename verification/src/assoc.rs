//! Association sequences: sequences of key-value pairs read as maps.
//!
//! The executable containers of this crate store their entries in vectors of
//! pairs.  This module gives such a sequence its mathematical reading, a
//! `Map` from keys to values, together with the lemmas that connect indexing
//! into the sequence with lookup in the map.

use vstd::prelude::*;

verus! {

/// No two entries of the sequence carry the same key.
pub open spec fn kv_unique<K, V>(s: Seq<(K, V)>) -> bool {
    forall|i: int, j: int| 0 <= i < j < s.len() ==> (#[trigger] s[i]).0 != (#[trigger] s[j]).0
}

/// The map that an association sequence denotes.  A later entry wins over an
/// earlier one with the same key; under `kv_unique` that case does not arise.
pub open spec fn kv_map<K, V>(s: Seq<(K, V)>) -> Map<K, V>
    decreases s.len(),
{
    if s.len() == 0 {
        Map::empty()
    } else {
        kv_map(s.drop_last()).insert(s.last().0, s.last().1)
    }
}

/// A key is in the denoted map exactly when some entry carries it.
pub proof fn lemma_kv_dom<K, V>(s: Seq<(K, V)>, k: K)
    ensures
        kv_map(s).dom().contains(k) <==> exists|i: int| 0 <= i < s.len() && (#[trigger] s[i]).0 == k,
    decreases s.len(),
{
    if s.len() > 0 {
        lemma_kv_dom(s.drop_last(), k);
        if s.last().0 == k {
            assert(s[s.len() - 1].0 == k);
        } else if kv_map(s).dom().contains(k) {
            let i = choose|i: int| 0 <= i < s.drop_last().len() && (#[trigger] s.drop_last()[i]).0 == k;
            assert(s[i].0 == k);
        } else if exists|i: int| 0 <= i < s.len() && (#[trigger] s[i]).0 == k {
            let i = choose|i: int| 0 <= i < s.len() && (#[trigger] s[i]).0 == k;
            assert(s.drop_last()[i].0 == k);
        }
    }
}

/// Under unique keys, the entry at index `i` is what the map yields for its key.
pub proof fn lemma_kv_at<K, V>(s: Seq<(K, V)>, i: int)
    requires
        kv_unique(s),
        0 <= i < s.len(),
    ensures
        kv_map(s).dom().contains(s[i].0),
        kv_map(s)[s[i].0] == s[i].1,
    decreases s.len(),
{
    assert(s[i].0 == s[i].0);
    lemma_kv_dom(s, s[i].0);
    if i == s.len() - 1 {
    } else {
        assert(kv_unique(s.drop_last())) by {
            assert(forall|m: int, n: int|
                0 <= m < n < s.drop_last().len() ==> (#[trigger] s.drop_last()[m]).0 != (#[trigger] s
                    .drop_last()[n]).0);
        }
        assert(s.drop_last()[i] == s[i]);
        lemma_kv_at(s.drop_last(), i);
        assert(s[i].0 != s.last().0);
    }
}

/// Replacing the value of the entry at index `i` replaces that key's value in
/// the denoted map and touches nothing else.
pub proof fn lemma_kv_update<K, V>(s: Seq<(K, V)>, i: int, v: V)
    requires
        kv_unique(s),
        0 <= i < s.len(),
    ensures
        kv_unique(s.update(i, (s[i].0, v))),
        kv_map(s.update(i, (s[i].0, v))) == kv_map(s).insert(s[i].0, v),
{
    let s2 = s.update(i, (s[i].0, v));
    assert(forall|m: int| 0 <= m < s2.len() ==> (#[trigger] s2[m]).0 == s[m].0);
    let m1 = kv_map(s).insert(s[i].0, v);
    let m2 = kv_map(s2);
    assert forall|k: K| m2.dom().contains(k) implies m1.dom().contains(k) by {
        lemma_kv_dom(s2, k);
        let n = choose|n: int| 0 <= n < s2.len() && (#[trigger] s2[n]).0 == k;
        assert(s[n].0 == k);
        lemma_kv_dom(s, k);
    }
    assert forall|k: K| m1.dom().contains(k) implies m2.dom().contains(k) by {
        if k != s[i].0 {
            lemma_kv_dom(s, k);
            let n = choose|n: int| 0 <= n < s.len() && (#[trigger] s[n]).0 == k;
            assert(s2[n].0 == k);
        } else {
            assert(s2[i].0 == k);
        }
        lemma_kv_dom(s2, k);
    }
    assert forall|k: K| m2.dom().contains(k) implies m2[k] == m1[k] by {
        if k == s[i].0 {
            lemma_kv_at(s2, i);
        } else {
            lemma_kv_dom(s2, k);
            let n = choose|n: int| 0 <= n < s2.len() && (#[trigger] s2[n]).0 == k;
            lemma_kv_at(s2, n);
            lemma_kv_at(s, n);
        }
    }
    assert(m2 =~= m1);
}

/// Appending an entry with a fresh key inserts that key into the denoted map.
pub proof fn lemma_kv_push<K, V>(s: Seq<(K, V)>, k: K, v: V)
    requires
        kv_unique(s),
        !kv_map(s).dom().contains(k),
    ensures
        kv_unique(s.push((k, v))),
        kv_map(s.push((k, v))) == kv_map(s).insert(k, v),
{
    let s2 = s.push((k, v));
    assert(s2.drop_last() =~= s);
    assert(s2.last() == (k, v));
    assert forall|m: int, n: int| 0 <= m < n < s2.len() implies (#[trigger] s2[m]).0 != (
    #[trigger] s2[n]).0 by {
        if n == s2.len() - 1 {
            lemma_kv_dom(s, s2[m].0);
        }
    }
}

/// Removing the entry at index `i` removes its key from the denoted map and
/// touches nothing else.
pub proof fn lemma_kv_remove_at<K, V>(s: Seq<(K, V)>, i: int)
    requires
        kv_unique(s),
        0 <= i < s.len(),
    ensures
        kv_unique(s.remove(i)),
        kv_map(s.remove(i)) == kv_map(s).remove(s[i].0),
{
    let s2 = s.remove(i);
    assert(forall|m: int| 0 <= m < i ==> #[trigger] s2[m] == s[m]);
    assert(forall|m: int| i <= m < s2.len() ==> #[trigger] s2[m] == s[m + 1]);
    assert forall|m: int, n: int| 0 <= m < n < s2.len() implies (#[trigger] s2[m]).0 != (
    #[trigger] s2[n]).0 by {}
    let m1 = kv_map(s).remove(s[i].0);
    let m2 = kv_map(s2);
    assert forall|k: K|
        ((#[trigger] m2.dom().contains(k)) == (#[trigger] m1.dom().contains(k))) && (m2.dom()
            .contains(k) ==> m2[k] == m1[k]) by {
        lemma_kv_dom(s2, k);
        lemma_kv_dom(s, k);
        if m2.dom().contains(k) {
            let n = choose|n: int| 0 <= n < s2.len() && (#[trigger] s2[n]).0 == k;
            let n_orig: int = if n < i {
                n
            } else {
                n + 1
            };
            assert(s[n_orig].0 == k);
            assert(k != s[i].0);
            lemma_kv_at(s, n_orig);
            lemma_kv_at(s2, n);
        }
        if m1.dom().contains(k) {
            let n = choose|n: int| 0 <= n < s.len() && (#[trigger] s[n]).0 == k;
            assert(n != i);
            let n2: int = if n < i {
                n
            } else {
                n - 1
            };
            assert(s2[n2].0 == k);
        }
    }
    assert(m2 =~= m1);
}

/// Pushing an element inserts it into the sequence's set of elements, and a
/// fresh element keeps the sequence free of duplicates.
pub proof fn lemma_to_set_push<T>(s: Seq<T>, x: T)
    ensures
        s.push(x).to_set() == s.to_set().insert(x),
        s.no_duplicates() && !s.to_set().contains(x) ==> s.push(x).no_duplicates(),
{
    let s2 = s.push(x);
    assert forall|y: T| s.to_set().insert(x).contains(y) implies s2.to_set().contains(y) by {
        if y == x {
            assert(s2[s.len() as int] == y);
        } else {
            let n = choose|n: int| 0 <= n < s.len() && s[n] == y;
            assert(s2[n] == y);
        }
    }
    assert forall|y: T| s2.to_set().contains(y) implies s.to_set().insert(x).contains(y) by {
        let n = choose|n: int| 0 <= n < s2.len() && s2[n] == y;
        if n < s.len() {
            assert(s[n] == y);
        }
    }
    assert(s2.to_set() =~= s.to_set().insert(x));
    if s.no_duplicates() && !s.to_set().contains(x) {
        assert forall|m: int, n: int| 0 <= m < n < s2.len() implies s2[m] != s2[n] by {
            if n == s.len() as int {
                assert(s.to_set().contains(s[m]));
            }
        }
    }
}

/// Removing the element at index `i` from a duplicate-free sequence removes it
/// from the sequence's set of elements.
pub proof fn lemma_to_set_remove_at<T>(s: Seq<T>, i: int)
    requires
        s.no_duplicates(),
        0 <= i < s.len(),
    ensures
        s.remove(i).no_duplicates(),
        s.remove(i).to_set() == s.to_set().remove(s[i]),
{
    let s2 = s.remove(i);
    assert(forall|m: int| 0 <= m < i ==> #[trigger] s2[m] == s[m]);
    assert(forall|m: int| i <= m < s2.len() ==> #[trigger] s2[m] == s[m + 1]);
    assert forall|m: int, n: int| 0 <= m < n < s2.len() implies s2[m] != s2[n] by {}
    assert forall|y: T| s2.to_set().contains(y) implies s.to_set().remove(s[i]).contains(y) by {
        let n = choose|n: int| 0 <= n < s2.len() && s2[n] == y;
        let n_orig: int = if n < i {
            n
        } else {
            n + 1
        };
        assert(s[n_orig] == y);
    }
    assert forall|y: T| s.to_set().remove(s[i]).contains(y) implies s2.to_set().contains(y) by {
        let n = choose|n: int| 0 <= n < s.len() && s[n] == y;
        assert(n != i);
        let n2: int = if n < i {
            n
        } else {
            n - 1
        };
        assert(s2[n2] == y);
    }
    assert(s2.to_set() =~= s.to_set().remove(s[i]));
}

} // verus!
