//! The least key of an ordered map.
use std::collections::BTreeMap;

use vstd::prelude::*;
use vstd::std_specs::cmp::OrdSpec;
use vstd::std_specs::iter::IteratorSpec;

verus! {

/// Whether `key` is the least key of `map`.
pub open spec fn is_earliest<V>(map: Map<i128, V>, key: i128) -> bool {
    &&& map.contains_key(key)
    &&& forall|other: i128| #[trigger] map.contains_key(other) ==> key <= other
}

/// The least key of a map, if it has any.
pub fn earliest_key<V>(map: &BTreeMap<i128, V>) -> (key: Option<i128>)
    ensures
        key is None <==> map@.is_empty(),
        key matches Some(key) ==> is_earliest(map@, key),
{
    broadcast use vstd::std_specs::btree::group_btree_axioms;

    let items = map.iter();
    let ghost entries = items.remaining();
    let ghost keys = entries.map_values(|item: (&i128, &V)| *item.0);
    for item in it: items
        invariant
            it.index() == 0,
            it.seq() == entries,
            keys == entries.map_values(|item: (&i128, &V)| *item.0),
            vstd::std_specs::btree::increasing_seq(keys),
            forall|k: i128| #[trigger] map@.contains_key(k) ==> entries.contains((&k, &map@[k])),
            forall|i: int| 0 <= i < entries.len() ==> map@.contains_key(*(#[trigger] entries[i]).0),
    {
        proof {
            assert forall|other: i128| #[trigger] map@.contains_key(other) implies *item.0
                <= other by {
                let i = entries.index_of((&other, &map@[other]));
                assert(keys[i] == other);
                assert(keys[0] == *item.0);
                assert(vstd::laws_cmp::obeys_cmp::<i128>());
                if i > 0 {
                    assert(keys[0].cmp_spec(&keys[i]) is Less);
                }
            }
        }
        return Some(*item.0);
    }
    None
}

} // verus!
