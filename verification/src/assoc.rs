//! Association lists as maps: the model behind the peer registry and the
//! table of pending tasks, which keep their entries in a vector.

use vstd::prelude::*;

verus! {

/// No key occurs twice.
pub open spec fn distinct_keys<K, V>(pairs: Seq<(K, V)>) -> bool {
    forall|i: int, j: int| 0 <= i < j < pairs.len() ==> pairs[i].0 != pairs[j].0
}

/// The map that a list of pairs stands for; a later pair overrides an earlier
/// one with the same key.
pub open spec fn assoc_map<K, V>(pairs: Seq<(K, V)>) -> Map<K, V>
    decreases pairs.len(),
{
    if pairs.len() == 0 {
        Map::empty()
    } else {
        assoc_map(pairs.drop_last()).insert(pairs.last().0, pairs.last().1)
    }
}

/// A key is in the map exactly if some pair carries it.
pub proof fn lemma_assoc_dom<K, V>(pairs: Seq<(K, V)>, key: K)
    ensures
        assoc_map(pairs).dom().contains(key) <==> exists|i: int|
            0 <= i < pairs.len() && (#[trigger] pairs[i]).0 == key,
    decreases pairs.len(),
{
    if pairs.len() > 0 {
        let front = pairs.drop_last();
        lemma_assoc_dom(front, key);
        if assoc_map(pairs).dom().contains(key) {
            if pairs.last().0 == key {
                assert(pairs[pairs.len() - 1].0 == key);
            } else {
                let i = choose|i: int| 0 <= i < front.len() && (#[trigger] front[i]).0 == key;
                assert(pairs[i].0 == key);
            }
        }
        if exists|i: int| 0 <= i < pairs.len() && (#[trigger] pairs[i]).0 == key {
            let i = choose|i: int| 0 <= i < pairs.len() && (#[trigger] pairs[i]).0 == key;
            if i < front.len() {
                assert(front[i].0 == key);
            }
        }
    }
}

/// With distinct keys, the map holds each pair's value under its key.
pub proof fn lemma_assoc_at<K, V>(pairs: Seq<(K, V)>, i: int)
    requires
        distinct_keys(pairs),
        0 <= i < pairs.len(),
    ensures
        assoc_map(pairs).dom().contains(pairs[i].0),
        assoc_map(pairs)[pairs[i].0] == pairs[i].1,
    decreases pairs.len(),
{
    if i < pairs.len() - 1 {
        let front = pairs.drop_last();
        assert(distinct_keys(front)) by {
            assert forall|a: int, b: int| 0 <= a < b < front.len() implies front[a].0
                != front[b].0 by {
                assert(front[a] == pairs[a] && front[b] == pairs[b]);
            }
        }
        lemma_assoc_at(front, i);
        assert(front[i] == pairs[i]);
        assert(pairs[i].0 != pairs[pairs.len() - 1].0);
    }
}

/// Appending a pair inserts it.
pub proof fn lemma_assoc_push<K, V>(pairs: Seq<(K, V)>, key: K, value: V)
    requires
        distinct_keys(pairs),
        !assoc_map(pairs).dom().contains(key),
    ensures
        distinct_keys(pairs.push((key, value))),
        assoc_map(pairs.push((key, value))) == assoc_map(pairs).insert(key, value),
{
    let more = pairs.push((key, value));
    assert(more.drop_last() =~= pairs);
    assert forall|a: int, b: int| 0 <= a < b < more.len() implies more[a].0 != more[b].0 by {
        if b == pairs.len() {
            lemma_assoc_dom(pairs, key);
            assert(more[a] == pairs[a]);
        } else {
            assert(more[a] == pairs[a] && more[b] == pairs[b]);
        }
    }
}

/// With distinct keys, dropping a pair removes its key.
pub proof fn lemma_assoc_remove<K, V>(pairs: Seq<(K, V)>, i: int)
    requires
        distinct_keys(pairs),
        0 <= i < pairs.len(),
    ensures
        distinct_keys(pairs.remove(i)),
        assoc_map(pairs.remove(i)) == assoc_map(pairs).remove(pairs[i].0),
    decreases pairs.len(),
{
    let less = pairs.remove(i);
    let front = pairs.drop_last();
    assert forall|a: int, b: int| 0 <= a < b < less.len() implies less[a].0 != less[b].0 by {
        let a0 = if a < i { a } else { a + 1 };
        let b0 = if b < i { b } else { b + 1 };
        assert(less[a] == pairs[a0] && less[b] == pairs[b0]);
    }
    assert(distinct_keys(front)) by {
        assert forall|a: int, b: int| 0 <= a < b < front.len() implies front[a].0
            != front[b].0 by {
            assert(front[a] == pairs[a] && front[b] == pairs[b]);
        }
    }
    if i == pairs.len() - 1 {
        assert(less =~= front);
        lemma_assoc_dom(front, pairs[i].0);
        if assoc_map(front).dom().contains(pairs[i].0) {
            let j = choose|j: int| 0 <= j < front.len() && (#[trigger] front[j]).0 == pairs[i].0;
            assert(front[j] == pairs[j]);
        }
        assert(assoc_map(less) =~= assoc_map(pairs).remove(pairs[i].0));
    } else {
        assert(less.drop_last() =~= front.remove(i));
        assert(less.last() == pairs.last());
        assert(front[i] == pairs[i]);
        lemma_assoc_remove(front, i);
        assert(pairs[i].0 != pairs[pairs.len() - 1].0);
        assert(assoc_map(less) =~= assoc_map(pairs).remove(pairs[i].0));
    }
}

/// With distinct keys, replacing a pair's value inserts the new value under
/// the same key.
pub proof fn lemma_assoc_update<K, V>(pairs: Seq<(K, V)>, i: int, value: V)
    requires
        distinct_keys(pairs),
        0 <= i < pairs.len(),
    ensures
        distinct_keys(pairs.update(i, (pairs[i].0, value))),
        assoc_map(pairs.update(i, (pairs[i].0, value))) == assoc_map(pairs).insert(
            pairs[i].0,
            value,
        ),
    decreases pairs.len(),
{
    let new = pairs.update(i, (pairs[i].0, value));
    let front = pairs.drop_last();
    assert forall|a: int, b: int| 0 <= a < b < new.len() implies new[a].0 != new[b].0 by {
        assert(new[a].0 == pairs[a].0 && new[b].0 == pairs[b].0);
    }
    if i == pairs.len() - 1 {
        assert(new.drop_last() =~= front);
        assert(assoc_map(new) =~= assoc_map(pairs).insert(pairs[i].0, value));
    } else {
        assert(distinct_keys(front)) by {
            assert forall|a: int, b: int| 0 <= a < b < front.len() implies front[a].0
                != front[b].0 by {
                assert(front[a] == pairs[a] && front[b] == pairs[b]);
            }
        }
        assert(front[i] == pairs[i]);
        assert(new.drop_last() =~= front.update(i, (pairs[i].0, value)));
        assert(new.last() == pairs.last());
        lemma_assoc_update(front, i, value);
        assert(pairs[i].0 != pairs[pairs.len() - 1].0);
        assert(assoc_map(new) =~= assoc_map(pairs).insert(pairs[i].0, value));
    }
}

} // verus!
