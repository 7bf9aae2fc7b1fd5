//! Association sequences and the finite maps they denote.
//!
//! The exec-side containers of this crate keep their entries in insertion
//! order as a `Vec` of pairs with pairwise-distinct keys; their contracts
//! speak of [`assoc_map`], the `Map` such a sequence denotes. The lemmas
//! here relate sequence edits (push, update, remove) to map edits.

use vstd::prelude::*;

verus! {

/// The map denoted by an association sequence; on duplicate keys the
/// later entry wins.
pub open spec fn assoc_map<K, V>(s: Seq<(K, V)>) -> Map<K, V>
    decreases s.len(),
{
    if s.len() == 0 {
        Map::empty()
    } else {
        assoc_map(s.drop_last()).insert(s.last().0, s.last().1)
    }
}

/// Pairwise-distinct keys.
pub open spec fn unique_keys<K, V>(s: Seq<(K, V)>) -> bool {
    forall|i: int, j: int| 0 <= i < j < s.len() ==> (#[trigger] s[i]).0 != (#[trigger] s[j]).0
}

/// Whether some entry holds `k`.
pub open spec fn has_key<K, V>(s: Seq<(K, V)>, k: K) -> bool {
    exists|i: int| 0 <= i < s.len() && (#[trigger] s[i]).0 == k
}

/// The denoted map contains exactly the keys of the entries, and, under
/// key uniqueness, maps each to that entry's value.
pub proof fn lemma_assoc_map_index<K, V>(s: Seq<(K, V)>, i: int)
    requires
        unique_keys(s),
        0 <= i < s.len(),
    ensures
        assoc_map(s).contains_key(s[i].0),
        assoc_map(s)[s[i].0] == s[i].1,
    decreases s.len(),
{
    if i == s.len() - 1 {
    } else {
        assert(s.drop_last()[i] == s[i]);
        assert(unique_keys(s.drop_last())) by {
            assert(forall|x: int, y: int|
                0 <= x < y < s.drop_last().len() ==> (#[trigger] s.drop_last()[x]) == s[x]
                    && (#[trigger] s.drop_last()[y]) == s[y]);
        }
        lemma_assoc_map_index(s.drop_last(), i);
        assert(s[i].0 != s.last().0);
    }
}

/// A key outside every entry is outside the denoted map.
pub proof fn lemma_assoc_map_absent<K, V>(s: Seq<(K, V)>, k: K)
    requires
        !has_key(s, k),
    ensures
        !assoc_map(s).contains_key(k),
    decreases s.len(),
{
    if s.len() > 0 {
        assert(!has_key(s.drop_last(), k)) by {
            assert(forall|i: int|
                0 <= i < s.drop_last().len() ==> (#[trigger] s.drop_last()[i]) == s[i]);
        }
        lemma_assoc_map_absent(s.drop_last(), k);
        assert(s.last() == s[s.len() - 1]);
        assert(s.last().0 != k);
    }
}

/// Appending a fresh entry inserts it into the denoted map.
pub proof fn lemma_assoc_map_push<K, V>(s: Seq<(K, V)>, k: K, v: V)
    ensures
        assoc_map(s.push((k, v))) == assoc_map(s).insert(k, v),
{
    assert(s.push((k, v)).drop_last() =~= s);
    assert(s.push((k, v)).last() == (k, v));
}

/// Overwriting the entry that holds `k` updates the denoted map at `k`.
pub proof fn lemma_assoc_map_update<K, V>(s: Seq<(K, V)>, i: int, v: V)
    requires
        unique_keys(s),
        0 <= i < s.len(),
    ensures
        assoc_map(s.update(i, (s[i].0, v))) =~= assoc_map(s).insert(s[i].0, v),
        unique_keys(s.update(i, (s[i].0, v))),
    decreases s.len(),
{
    let k = s[i].0;
    let s2 = s.update(i, (k, v));
    assert(unique_keys(s2)) by {
        assert(forall|x: int|
            0 <= x < s.len() ==> (#[trigger] s2[x]).0 == s[x].0);
    }
    if i == s.len() - 1 {
        assert(s2.drop_last() =~= s.drop_last());
        assert(s2.last() == (k, v));
    } else {
        assert(s2.drop_last() =~= s.drop_last().update(i, (k, v)));
        assert(s.drop_last()[i] == s[i]);
        assert(unique_keys(s.drop_last())) by {
            assert(forall|x: int, y: int|
                0 <= x < y < s.drop_last().len() ==> (#[trigger] s.drop_last()[x]) == s[x]
                    && (#[trigger] s.drop_last()[y]) == s[y]);
        }
        lemma_assoc_map_update(s.drop_last(), i, v);
        assert(s2.last() == s.last());
        assert(s.last() == s[s.len() - 1]);
        assert(k != s.last().0);
        assert(assoc_map(s2) =~= assoc_map(s).insert(k, v));
    }
}

/// Removing the entry that holds `k` removes `k` from the denoted map.
pub proof fn lemma_assoc_map_remove<K, V>(s: Seq<(K, V)>, i: int)
    requires
        unique_keys(s),
        0 <= i < s.len(),
    ensures
        assoc_map(s.remove(i)) =~= assoc_map(s).remove(s[i].0),
        unique_keys(s.remove(i)),
        !has_key(s.remove(i), s[i].0),
    decreases s.len(),
{
    let k = s[i].0;
    let s2 = s.remove(i);
    assert(forall|x: int| 0 <= x < i ==> (#[trigger] s2[x]) == s[x]);
    assert(forall|x: int| i <= x < s2.len() ==> (#[trigger] s2[x]) == s[x + 1]);
    assert(unique_keys(s2));
    assert(!has_key(s2, k));
    lemma_assoc_map_absent(s2, k);
    if i == s.len() - 1 {
        assert(s2 =~= s.drop_last());
        assert(!has_key(s.drop_last(), k)) by {
            assert(forall|x: int|
                0 <= x < s.drop_last().len() ==> (#[trigger] s.drop_last()[x]) == s[x]);
        }
        lemma_assoc_map_absent(s.drop_last(), k);
        assert(assoc_map(s) == assoc_map(s.drop_last()).insert(k, s[i].1));
        assert(assoc_map(s2) =~= assoc_map(s).remove(k));
    } else {
        assert(s2.drop_last() =~= s.drop_last().remove(i));
        assert(s.drop_last()[i] == s[i]);
        assert(unique_keys(s.drop_last())) by {
            assert(forall|x: int, y: int|
                0 <= x < y < s.drop_last().len() ==> (#[trigger] s.drop_last()[x]) == s[x]
                    && (#[trigger] s.drop_last()[y]) == s[y]);
        }
        lemma_assoc_map_remove(s.drop_last(), i);
        assert(s2.last() == s.last());
        assert(s.last() == s[s.len() - 1]);
        assert(k != s.last().0);
        assert(assoc_map(s2) =~= assoc_map(s).remove(k));
    }
}

} // verus!
