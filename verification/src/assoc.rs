//! Sequences of records keyed by grid position, viewed as finite maps.
//!
//! The grid store and the engines' node lists all keep their records in
//! vectors whose entries carry a position; their contracts speak about the
//! map from positions to records.  This module defines that abstraction
//! and the lemmas that connect vector edits to map edits.

use vstd::prelude::*;

use crate::grid::GridNodePosition;

verus! {

/// The map from each record's key to its value, later entries winning.
pub open spec fn map_of<T, V>(
    s: Seq<T>,
    key: spec_fn(T) -> GridNodePosition,
    val: spec_fn(T) -> V,
) -> Map<GridNodePosition, V>
    decreases s.len(),
{
    if s.len() == 0 {
        Map::empty()
    } else {
        map_of(s.drop_last(), key, val).insert(key(s.last()), val(s.last()))
    }
}

/// No two entries share a key.
pub open spec fn keys_distinct<T>(s: Seq<T>, key: spec_fn(T) -> GridNodePosition) -> bool {
    forall|i: int, j: int| 0 <= i < j < s.len() ==> key(s[i]) != key(s[j])
}

/// The map's domain is exactly the set of keys occurring in the sequence,
/// and it is finite.
pub proof fn lemma_map_of_dom<T, V>(
    s: Seq<T>,
    key: spec_fn(T) -> GridNodePosition,
    val: spec_fn(T) -> V,
)
    ensures
        forall|p: GridNodePosition|
            map_of(s, key, val).dom().contains(p) <==> exists|i: int|
                0 <= i < s.len() && key(#[trigger] s[i]) == p,
        map_of(s, key, val).dom().finite(),
    decreases s.len(),
{
    if s.len() > 0 {
        lemma_map_of_dom(s.drop_last(), key, val);
        assert forall|p: GridNodePosition| map_of(s, key, val).dom().contains(p) implies exists|
            i: int,
        | 0 <= i < s.len() && key(#[trigger] s[i]) == p by {
            if p == key(s.last()) {
                assert(key(s[s.len() - 1]) == p);
            } else {
                let i = choose|i: int| 0 <= i < s.drop_last().len() && key(
                    #[trigger] s.drop_last()[i],
                ) == p;
                assert(key(s[i]) == p);
            }
        }
        assert forall|p: GridNodePosition|
            (exists|i: int| 0 <= i < s.len() && key(#[trigger] s[i]) == p) implies map_of(
            s,
            key,
            val,
        ).dom().contains(p) by {
            let i = choose|i: int| 0 <= i < s.len() && key(#[trigger] s[i]) == p;
            if i < s.len() - 1 {
                assert(key(s.drop_last()[i]) == p);
            }
        }
    }
}

/// Each entry of a distinct-keyed sequence is found in the map at its key.
pub proof fn lemma_map_of_index<T, V>(
    s: Seq<T>,
    key: spec_fn(T) -> GridNodePosition,
    val: spec_fn(T) -> V,
    i: int,
)
    requires
        keys_distinct(s, key),
        0 <= i < s.len(),
    ensures
        map_of(s, key, val).dom().contains(key(s[i])),
        map_of(s, key, val)[key(s[i])] == val(s[i]),
    decreases s.len(),
{
    if i < s.len() - 1 {
        assert(forall|j: int, k: int|
            0 <= j < k < s.drop_last().len() ==> key(s.drop_last()[j]) != key(s.drop_last()[k]));
        lemma_map_of_index(s.drop_last(), key, val, i);
        assert(s.drop_last()[i] == s[i]);
        assert(key(s[i]) != key(s.last()));
    }
}

/// A distinct-keyed sequence has as many entries as its map has keys.
pub proof fn lemma_map_of_len<T, V>(
    s: Seq<T>,
    key: spec_fn(T) -> GridNodePosition,
    val: spec_fn(T) -> V,
)
    requires
        keys_distinct(s, key),
    ensures
        map_of(s, key, val).dom().len() == s.len(),
        map_of(s, key, val).dom().finite(),
    decreases s.len(),
{
    lemma_map_of_dom(s, key, val);
    if s.len() > 0 {
        let rest = s.drop_last();
        assert(forall|j: int, k: int|
            0 <= j < k < rest.len() ==> key(rest[j]) != key(rest[k]));
        lemma_map_of_len(rest, key, val);
        lemma_map_of_dom(rest, key, val);
        assert(forall|i: int| 0 <= i < rest.len() ==> key(#[trigger] rest[i]) == key(s[i]));
        assert(!map_of(rest, key, val).dom().contains(key(s.last())));
    }
}

/// Appending an entry inserts it into the map.
pub proof fn lemma_map_of_push<T, V>(
    s: Seq<T>,
    key: spec_fn(T) -> GridNodePosition,
    val: spec_fn(T) -> V,
    x: T,
)
    ensures
        map_of(s.push(x), key, val) == map_of(s, key, val).insert(key(x), val(x)),
{
    assert(s.push(x).drop_last() =~= s);
    assert(s.push(x).last() == x);
}

/// Removing the entry at `i` removes its key from the map.
pub proof fn lemma_map_of_remove<T, V>(
    s: Seq<T>,
    key: spec_fn(T) -> GridNodePosition,
    val: spec_fn(T) -> V,
    i: int,
)
    requires
        keys_distinct(s, key),
        0 <= i < s.len(),
    ensures
        map_of(s.remove(i), key, val) == map_of(s, key, val).remove(key(s[i])),
    decreases s.len(),
{
    lemma_map_of_dom(s.drop_last(), key, val);
    if i == s.len() - 1 {
        assert(s.remove(i) =~= s.drop_last());
        assert(!map_of(s.drop_last(), key, val).dom().contains(key(s.last())));
        assert(map_of(s.drop_last(), key, val) =~= map_of(s, key, val).remove(key(s.last())));
    } else {
        let rest = s.drop_last();
        assert(forall|j: int, k: int|
            0 <= j < k < rest.len() ==> key(rest[j]) != key(rest[k]));
        lemma_map_of_remove(rest, key, val, i);
        assert(s.remove(i).drop_last() =~= rest.remove(i));
        assert(s.remove(i).last() == s.last());
        assert(key(s[i]) != key(s.last()));
        assert(map_of(rest, key, val).remove(key(s[i])).insert(key(s.last()), val(s.last()))
            =~= map_of(rest, key, val).insert(key(s.last()), val(s.last())).remove(key(s[i])));
    }
}

/// Distinctness survives removing an entry.
pub proof fn lemma_keys_distinct_remove<T>(s: Seq<T>, key: spec_fn(T) -> GridNodePosition, i: int)
    requires
        keys_distinct(s, key),
        0 <= i < s.len(),
    ensures
        keys_distinct(s.remove(i), key),
{
    assert forall|j: int, k: int| 0 <= j < k < s.remove(i).len() implies key(s.remove(i)[j])
        != key(s.remove(i)[k]) by {
        let j0 = if j < i { j } else { j + 1 };
        let k0 = if k < i { k } else { k + 1 };
        assert(s.remove(i)[j] == s[j0]);
        assert(s.remove(i)[k] == s[k0]);
    }
}

/// Distinctness survives overwriting an entry with one of the same key.
pub proof fn lemma_keys_distinct_update<T>(
    s: Seq<T>,
    key: spec_fn(T) -> GridNodePosition,
    i: int,
    x: T,
)
    requires
        keys_distinct(s, key),
        0 <= i < s.len(),
        key(x) == key(s[i]),
    ensures
        keys_distinct(s.update(i, x), key),
{
}

/// Distinctness survives appending an entry with a fresh key.
pub proof fn lemma_keys_distinct_push<T>(s: Seq<T>, key: spec_fn(T) -> GridNodePosition, x: T)
    requires
        keys_distinct(s, key),
        forall|i: int| 0 <= i < s.len() ==> key(#[trigger] s[i]) != key(x),
    ensures
        keys_distinct(s.push(x), key),
{
}

/// Appending to a sequence inserts into its element set.
pub proof fn lemma_to_set_push<A>(s: Seq<A>, x: A)
    ensures
        s.push(x).to_set() == s.to_set().insert(x),
{
    assert forall|y: A| #[trigger] s.push(x).to_set().contains(y) implies s.to_set().insert(
        x,
    ).contains(y) by {
        let i = choose|i: int| 0 <= i < s.push(x).len() && s.push(x)[i] == y;
        if i < s.len() {
            assert(s[i] == y);
        }
    }
    assert forall|y: A| #[trigger] s.to_set().insert(x).contains(y) implies s.push(
        x,
    ).to_set().contains(y) by {
        if y == x {
            assert(s.push(x)[s.len() as int] == y);
        } else {
            let i = choose|i: int| 0 <= i < s.len() && s[i] == y;
            assert(s.push(x)[i] == y);
        }
    }
    assert(s.push(x).to_set() =~= s.to_set().insert(x));
}

/// Overwriting the entry at `i` with a record of the same key updates the map.
pub proof fn lemma_map_of_update<T, V>(
    s: Seq<T>,
    key: spec_fn(T) -> GridNodePosition,
    val: spec_fn(T) -> V,
    i: int,
    x: T,
)
    requires
        keys_distinct(s, key),
        0 <= i < s.len(),
        key(x) == key(s[i]),
    ensures
        map_of(s.update(i, x), key, val) == map_of(s, key, val).insert(key(x), val(x)),
    decreases s.len(),
{
    if i == s.len() - 1 {
        assert(s.update(i, x).drop_last() =~= s.drop_last());
        assert(s.update(i, x).last() == x);
    } else {
        let rest = s.drop_last();
        assert(forall|j: int, k: int|
            0 <= j < k < rest.len() ==> key(rest[j]) != key(rest[k]));
        lemma_map_of_update(rest, key, val, i, x);
        assert(s.update(i, x).drop_last() =~= rest.update(i, x));
        assert(s.update(i, x).last() == s.last());
        assert(key(s[i]) != key(s.last()));
        assert(map_of(rest, key, val).insert(key(x), val(x)).insert(key(s.last()), val(s.last()))
            =~= map_of(rest, key, val).insert(key(s.last()), val(s.last())).insert(
            key(x),
            val(x),
        ));
    }
}

} // verus!
