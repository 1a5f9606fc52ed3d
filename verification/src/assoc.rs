//! Lists of keyed entries, and the maps they stand for.
//!
//! The index of unspent outputs and the pool of pending transactions both
//! keep their entries in a `Vec` in which no key occurs twice. These are the
//! facts that connect such a list to the `Map` of its contracts.

use vstd::prelude::*;

verus! {

/// No two entries have the same key.
pub open spec fn distinct_keys<K, V>(entries: Seq<(K, V)>) -> bool {
    forall|i: int, j: int|
        0 <= i < j < entries.len() ==> (#[trigger] entries[i]).0 != (#[trigger] entries[j]).0
}

/// Some entry has the key `k`.
pub open spec fn has_key<K, V>(entries: Seq<(K, V)>, k: K) -> bool {
    exists|i: int| 0 <= i < entries.len() && (#[trigger] entries[i]).0 == k
}

/// The map from each entry's key to its value; of two entries with one key
/// the later counts.
pub open spec fn map_of<K, V>(entries: Seq<(K, V)>) -> Map<K, V>
    decreases entries.len(),
{
    if entries.len() == 0 {
        Map::empty()
    } else {
        map_of(entries.drop_last()).insert(entries.last().0, entries.last().1)
    }
}

/// The map of a list holds exactly the keys of the list, finitely many.
pub proof fn lemma_map_of_keys<K, V>(entries: Seq<(K, V)>)
    ensures
        map_of(entries).dom().finite(),
        forall|k: K| map_of(entries).dom().contains(k) <==> has_key(entries, k),
    decreases entries.len(),
{
    if entries.len() > 0 {
        let front = entries.drop_last();
        lemma_map_of_keys(front);
        assert forall|k: K| map_of(entries).dom().contains(k) <==> has_key(entries, k) by {
            if has_key(entries, k) {
                let i = choose|i: int| 0 <= i < entries.len() && (#[trigger] entries[i]).0 == k;
                if i < front.len() {
                    assert(front[i].0 == k);
                }
            }
            if has_key(front, k) {
                let i = choose|i: int| 0 <= i < front.len() && (#[trigger] front[i]).0 == k;
                assert(entries[i].0 == k);
            }
            if k == entries.last().0 {
                assert(entries[entries.len() - 1].0 == k);
            }
        }
    } else {
        assert forall|k: K| !has_key(entries, k) by {}
    }
}

/// Leaving out the last entry keeps the keys distinct.
pub proof fn lemma_distinct_keys_front<K, V>(entries: Seq<(K, V)>)
    requires
        distinct_keys(entries),
        entries.len() > 0,
    ensures
        distinct_keys(entries.drop_last()),
        !has_key(entries.drop_last(), entries.last().0),
{
    let front = entries.drop_last();
    assert forall|i: int, j: int| 0 <= i < j < front.len() implies (#[trigger] front[i]).0 != (
    #[trigger] front[j]).0 by {
        assert(entries[i].0 != entries[j].0);
    }
    if has_key(front, entries.last().0) {
        let i = choose|i: int| 0 <= i < front.len() && (#[trigger] front[i]).0 == entries.last().0;
        assert(entries[i].0 != entries[entries.len() - 1].0);
    }
}

/// Where keys are distinct, the map holds each entry's value under its key,
/// and as many keys as there are entries.
pub proof fn lemma_map_of_entries<K, V>(entries: Seq<(K, V)>)
    requires
        distinct_keys(entries),
    ensures
        forall|i: int|
            0 <= i < entries.len() ==> map_of(entries)[(#[trigger] entries[i]).0] == entries[i].1,
        map_of(entries).dom().len() == entries.len(),
    decreases entries.len(),
{
    if entries.len() > 0 {
        let front = entries.drop_last();
        lemma_distinct_keys_front(entries);
        lemma_map_of_entries(front);
        lemma_map_of_keys(front);
        assert forall|i: int| 0 <= i < entries.len() implies map_of(entries)[(
        #[trigger] entries[i]).0] == entries[i].1 by {
            if i < front.len() {
                assert(front[i] == entries[i]);
                assert(entries[i].0 != entries[entries.len() - 1].0);
            }
        }
    }
}

/// An entry under a key that the list does not hold can be added at its end.
pub proof fn lemma_map_of_push<K, V>(entries: Seq<(K, V)>, k: K, v: V)
    requires
        distinct_keys(entries),
        !has_key(entries, k),
    ensures
        distinct_keys(entries.push((k, v))),
        map_of(entries.push((k, v))) == map_of(entries).insert(k, v),
{
    let after = entries.push((k, v));
    assert(after.drop_last() =~= entries);
    assert forall|i: int, j: int| 0 <= i < j < after.len() implies (#[trigger] after[i]).0 != (
    #[trigger] after[j]).0 by {
        if j < entries.len() {
            assert(entries[i].0 != entries[j].0);
        } else {
            assert(entries[i].0 == after[i].0);
        }
    }
}

/// The map of the first `i + 1` entries is the map of the first `i` with the
/// next entry put in under a key that was not there.
pub proof fn lemma_map_of_take_next<K, V>(entries: Seq<(K, V)>, i: int)
    requires
        distinct_keys(entries),
        0 <= i < entries.len(),
    ensures
        map_of(entries.take(i + 1)) == map_of(entries.take(i)).insert(entries[i].0, entries[i].1),
        map_of(entries.take(i)).dom().finite(),
        !map_of(entries.take(i)).dom().contains(entries[i].0),
{
    let prev = entries.take(i);
    let next = entries.take(i + 1);
    assert(next.drop_last() =~= prev);
    assert(next.last() == entries[i]);
    lemma_map_of_keys(prev);
    if has_key(prev, entries[i].0) {
        let j = choose|j: int| 0 <= j < prev.len() && (#[trigger] prev[j]).0 == entries[i].0;
        assert(entries[j].0 != entries[i].0);
    }
}

/// Taking an entry out of the list takes its key out of the map.
pub proof fn lemma_map_of_remove<K, V>(entries: Seq<(K, V)>, at: int)
    requires
        distinct_keys(entries),
        0 <= at < entries.len(),
    ensures
        distinct_keys(entries.remove(at)),
        map_of(entries.remove(at)) == map_of(entries).remove(entries[at].0),
{
    let rest = entries.remove(at);
    let k0 = entries[at].0;
    assert(distinct_keys(rest)) by {
        assert forall|i: int, j: int| 0 <= i < j < rest.len() implies (#[trigger] rest[i]).0 != (
        #[trigger] rest[j]).0 by {
            let ii = if i < at { i } else { i + 1 };
            let jj = if j < at { j } else { j + 1 };
            assert(entries[ii].0 != entries[jj].0);
        }
    }
    lemma_map_of_keys(entries);
    lemma_map_of_keys(rest);
    lemma_map_of_entries(entries);
    lemma_map_of_entries(rest);
    assert forall|k: K| has_key(rest, k) <==> (has_key(entries, k) && k != k0) by {
        if has_key(rest, k) {
            let i = choose|i: int| 0 <= i < rest.len() && (#[trigger] rest[i]).0 == k;
            let ii = if i < at { i } else { i + 1 };
            assert(entries[ii].0 == k);
            if ii < at {
                assert(entries[ii].0 != entries[at].0);
            } else {
                assert(entries[at].0 != entries[ii].0);
            }
        }
        if has_key(entries, k) && k != k0 {
            let i = choose|i: int| 0 <= i < entries.len() && (#[trigger] entries[i]).0 == k;
            let ii = if i < at { i } else { i - 1 };
            assert(rest[ii].0 == k);
        }
    }
    assert forall|k: K| map_of(rest).dom().contains(k) implies map_of(rest)[k] == map_of(
        entries,
    )[k] by {
        assert(has_key(rest, k));
        let i = choose|i: int| 0 <= i < rest.len() && (#[trigger] rest[i]).0 == k;
        let ii = if i < at { i } else { i + 1 };
        assert(entries[ii] == rest[i]);
        assert(map_of(rest)[rest[i].0] == rest[i].1);
        assert(map_of(entries)[entries[ii].0] == entries[ii].1);
    }
    assert forall|k: K|
        map_of(rest).dom().contains(k) <==> map_of(entries).remove(k0).dom().contains(k) by {
        assert(map_of(rest).dom().contains(k) <==> has_key(rest, k));
        assert(map_of(entries).dom().contains(k) <==> has_key(entries, k));
        assert(has_key(rest, k) <==> (has_key(entries, k) && k != k0));
    }
    assert(map_of(rest) =~= map_of(entries).remove(k0));
}

} // verus!
