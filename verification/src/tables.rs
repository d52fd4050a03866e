//! Tables of rows, each with a key, and the maps that they stand for.

use vstd::prelude::*;

verus! {

/// The map that the rows stand for: each row gives its key its value.
pub open spec fn map_of<K, V>(rows: Seq<(K, V)>) -> Map<K, V>
    decreases rows.len(),
{
    if rows.len() == 0 {
        Map::empty()
    } else {
        map_of(rows.drop_last()).insert(rows.last().0, rows.last().1)
    }
}

/// No two rows have the same key.
pub open spec fn distinct_keys<K, V>(rows: Seq<(K, V)>) -> bool {
    forall|i: int, j: int|
        0 <= i < j < rows.len() ==> (#[trigger] rows[i]).0 != (#[trigger] rows[j]).0
}

pub proof fn lemma_map_of_push<K, V>(rows: Seq<(K, V)>, row: (K, V))
    ensures
        map_of(rows.push(row)) == map_of(rows).insert(row.0, row.1),
{
    assert(rows.push(row).drop_last() =~= rows);
}

pub proof fn lemma_map_of_absent<K, V>(rows: Seq<(K, V)>, key: K)
    requires
        forall|i: int| 0 <= i < rows.len() ==> (#[trigger] rows[i]).0 != key,
    ensures
        !map_of(rows).contains_key(key),
    decreases rows.len(),
{
    if rows.len() > 0 {
        lemma_map_of_absent(rows.drop_last(), key);
    }
}

pub proof fn lemma_map_of_row<K, V>(rows: Seq<(K, V)>, i: int)
    requires
        distinct_keys(rows),
        0 <= i < rows.len(),
    ensures
        map_of(rows).contains_key(rows[i].0),
        map_of(rows)[rows[i].0] == rows[i].1,
    decreases rows.len(),
{
    if i < rows.len() - 1 {
        lemma_map_of_row(rows.drop_last(), i);
        assert(rows.drop_last()[i] == rows[i]);
    }
}

pub proof fn lemma_map_of_update<K, V>(rows: Seq<(K, V)>, i: int, value: V)
    requires
        distinct_keys(rows),
        0 <= i < rows.len(),
    ensures
        map_of(rows.update(i, (rows[i].0, value))) == map_of(rows).insert(rows[i].0, value),
    decreases rows.len(),
{
    let new = rows.update(i, (rows[i].0, value));
    if i < rows.len() - 1 {
        lemma_map_of_update(rows.drop_last(), i, value);
        assert(new.drop_last() =~= rows.drop_last().update(i, (rows[i].0, value)));
        assert(rows[i].0 != rows.last().0);
        assert(map_of(new) =~= map_of(rows).insert(rows[i].0, value));
    } else {
        assert(new.drop_last() =~= rows.drop_last());
        assert(map_of(new) =~= map_of(rows).insert(rows[i].0, value));
    }
}

} // verus!
