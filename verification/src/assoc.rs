//! The mathematical view of an association list: a sequence of key-value
//! pairs with pairwise-distinct keys, read as a `Map`. Every store in the
//! library keeps its entries in a `Vec` and states its contracts over this
//! view.

use vstd::prelude::*;

verus! {

/// The map an entry sequence stands for; later entries would win, but the
/// stores keep their keys distinct.
pub open spec fn assoc_map<K, V>(s: Seq<(K, V)>) -> Map<K, V>
    decreases s.len(),
{
    if s.len() == 0 {
        Map::empty()
    } else {
        assoc_map(s.drop_last()).insert(s.last().0, s.last().1)
    }
}

/// No two entries share a key.
pub open spec fn distinct_keys<K, V>(s: Seq<(K, V)>) -> bool {
    forall|i: int, j: int|
        0 <= i < j < s.len() ==> (#[trigger] s[i]).0 != (#[trigger] s[j]).0
}

/// Some entry carries the key.
pub open spec fn has_key<K, V>(s: Seq<(K, V)>, k: K) -> bool {
    exists|i: int| 0 <= i < s.len() && (#[trigger] s[i]).0 == k
}

/// The map contains a key exactly when some entry carries it.
pub proof fn lemma_assoc_map_contains<K, V>(s: Seq<(K, V)>, k: K)
    ensures
        assoc_map(s).contains_key(k) <==> has_key(s, k),
    decreases s.len(),
{
    if s.len() == 0 {
    } else {
        lemma_assoc_map_contains(s.drop_last(), k);
        if s.last().0 == k {
            assert(s[s.len() - 1].0 == k);
            assert(has_key(s, k));
        } else {
            if has_key(s.drop_last(), k) {
                let i = choose|i: int|
                    0 <= i < s.drop_last().len() && (#[trigger] s.drop_last()[i]).0 == k;
                assert(s[i].0 == k);
                assert(has_key(s, k));
            }
            if has_key(s, k) {
                let i = choose|i: int| 0 <= i < s.len() && (#[trigger] s[i]).0 == k;
                assert(i < s.len() - 1);
                assert(s.drop_last()[i].0 == k);
                assert(has_key(s.drop_last(), k));
            }
        }
    }
}

/// Under distinct keys, the entry at any index gives the map's value there.
pub proof fn lemma_assoc_map_index<K, V>(s: Seq<(K, V)>, i: int)
    requires
        distinct_keys(s),
        0 <= i < s.len(),
    ensures
        assoc_map(s).contains_key(s[i].0),
        assoc_map(s)[s[i].0] == s[i].1,
    decreases s.len(),
{
    if i == s.len() - 1 {
    } else {
        assert(distinct_keys(s.drop_last()));
        lemma_assoc_map_index(s.drop_last(), i);
        assert(s.drop_last()[i] == s[i]);
        assert(s[i].0 != s[s.len() - 1].0);
    }
}

/// Appending an entry inserts its pair into the map; a fresh key keeps the
/// keys distinct.
pub proof fn lemma_assoc_map_push<K, V>(s: Seq<(K, V)>, k: K, v: V)
    ensures
        assoc_map(s.push((k, v))) == assoc_map(s).insert(k, v),
        distinct_keys(s) && !has_key(s, k) ==> distinct_keys(s.push((k, v))),
{
    let t = s.push((k, v));
    assert(t.drop_last() =~= s);
    assert(t.last() == (k, v));
    if distinct_keys(s) && !has_key(s, k) {
        assert forall|i: int, j: int| 0 <= i < j < t.len() implies (#[trigger] t[i]).0 != (
        #[trigger] t[j]).0 by {
            if j < t.len() - 1 {
                assert(t[i] == s[i] && t[j] == s[j]);
            } else {
                assert(t[i] == s[i]);
                assert(s[i].0 != k) by {
                    if s[i].0 == k {
                        assert(has_key(s, k));
                    }
                }
            }
        }
    }
}

/// Overwriting the value at an index inserts the new pair into the map and
/// keeps the keys distinct.
pub proof fn lemma_assoc_map_update<K, V>(s: Seq<(K, V)>, i: int, v: V)
    requires
        distinct_keys(s),
        0 <= i < s.len(),
    ensures
        assoc_map(s.update(i, (s[i].0, v))) == assoc_map(s).insert(s[i].0, v),
        distinct_keys(s.update(i, (s[i].0, v))),
    decreases s.len(),
{
    let k = s[i].0;
    let t = s.update(i, (k, v));
    assert(forall|j: int| 0 <= j < s.len() ==> (#[trigger] t[j]).0 == s[j].0);
    assert(distinct_keys(t));
    if i == s.len() - 1 {
        assert(t.drop_last() =~= s.drop_last());
        assert(t.last() == (k, v));
        assert(assoc_map(s.drop_last()).insert(k, s.last().1).insert(k, v) =~= assoc_map(
            s.drop_last(),
        ).insert(k, v));
    } else {
        assert(distinct_keys(s.drop_last()));
        lemma_assoc_map_update(s.drop_last(), i, v);
        assert(s.drop_last()[i] == s[i]);
        assert(t.drop_last() =~= s.drop_last().update(i, (k, v)));
        assert(t.last() == s.last());
        assert(s[s.len() - 1].0 != k);
        assert(assoc_map(s.drop_last()).insert(k, v).insert(s.last().0, s.last().1) =~= assoc_map(
            s.drop_last(),
        ).insert(s.last().0, s.last().1).insert(k, v));
    }
}

/// Removing the entry at an index removes its key from the map and keeps the
/// keys distinct.
pub proof fn lemma_assoc_map_remove<K, V>(s: Seq<(K, V)>, i: int)
    requires
        distinct_keys(s),
        0 <= i < s.len(),
    ensures
        assoc_map(s.remove(i)) == assoc_map(s).remove(s[i].0),
        distinct_keys(s.remove(i)),
    decreases s.len(),
{
    let k = s[i].0;
    let t = s.remove(i);
    assert forall|a: int, b: int| 0 <= a < b < t.len() implies (#[trigger] t[a]).0 != (
    #[trigger] t[b]).0 by {
        let sa = if a < i {
            a
        } else {
            a + 1
        };
        let sb = if b < i {
            b
        } else {
            b + 1
        };
        assert(t[a] == s[sa] && t[b] == s[sb]);
    }
    if i == s.len() - 1 {
        assert(t =~= s.drop_last());
        lemma_assoc_map_contains(s.drop_last(), k);
        assert(!has_key(s.drop_last(), k)) by {
            if has_key(s.drop_last(), k) {
                let j = choose|j: int|
                    0 <= j < s.drop_last().len() && (#[trigger] s.drop_last()[j]).0 == k;
                assert(s[j].0 == k);
                assert(s[j].0 != s[s.len() - 1].0);
            }
        }
        assert(assoc_map(s.drop_last()).insert(k, s.last().1).remove(k) =~= assoc_map(
            s.drop_last(),
        ));
    } else {
        assert(distinct_keys(s.drop_last()));
        lemma_assoc_map_remove(s.drop_last(), i);
        assert(s.drop_last()[i] == s[i]);
        assert(t.drop_last() =~= s.drop_last().remove(i));
        assert(t.last() == s.last());
        assert(s[s.len() - 1].0 != k);
        assert(assoc_map(s.drop_last()).remove(k).insert(s.last().0, s.last().1) =~= assoc_map(
            s.drop_last(),
        ).insert(s.last().0, s.last().1).remove(k));
    }
}


/// The sum of a weight over an entry sequence.
pub open spec fn seq_sum<T>(s: Seq<T>, f: spec_fn(T) -> nat) -> nat
    decreases s.len(),
{
    if s.len() == 0 {
        0
    } else {
        seq_sum(s.drop_last(), f) + f(s.last())
    }
}

/// Appending an entry adds its weight to the sum.
pub proof fn lemma_seq_sum_push<T>(s: Seq<T>, f: spec_fn(T) -> nat, x: T)
    ensures
        seq_sum(s.push(x), f) == seq_sum(s, f) + f(x),
{
    assert(s.push(x).drop_last() =~= s);
}

/// Overwriting the entry at an index swaps its weight in the sum.
pub proof fn lemma_seq_sum_update<T>(s: Seq<T>, f: spec_fn(T) -> nat, i: int, x: T)
    requires
        0 <= i < s.len(),
    ensures
        seq_sum(s.update(i, x), f) + f(s[i]) == seq_sum(s, f) + f(x),
    decreases s.len(),
{
    let t = s.update(i, x);
    if i == s.len() - 1 {
        assert(t.drop_last() =~= s.drop_last());
        assert(t.last() == x);
    } else {
        lemma_seq_sum_update(s.drop_last(), f, i, x);
        assert(t.drop_last() =~= s.drop_last().update(i, x));
        assert(t.last() == s.last());
        assert(s.drop_last()[i] == s[i]);
    }
}

/// Removing the entry at an index takes its weight out of the sum.
pub proof fn lemma_seq_sum_remove<T>(s: Seq<T>, f: spec_fn(T) -> nat, i: int)
    requires
        0 <= i < s.len(),
    ensures
        seq_sum(s.remove(i), f) + f(s[i]) == seq_sum(s, f),
    decreases s.len(),
{
    let t = s.remove(i);
    if i == s.len() - 1 {
        assert(t =~= s.drop_last());
    } else {
        lemma_seq_sum_remove(s.drop_last(), f, i);
        assert(t.drop_last() =~= s.drop_last().remove(i));
        assert(t.last() == s.last());
        assert(s.drop_last()[i] == s[i]);
    }
}

} // verus!
