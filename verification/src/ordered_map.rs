//! The insertion-ordered hash map that holds the pods, and what is taken on
//! trust about it. Nothing in this file is proved: each contract restates what
//! the map's documentation says of one of its methods.

use indexmap::IndexMap;
use vstd::prelude::*;

use crate::pod::Pod;

verus! {

/// `indexmap::IndexMap`. A value of it is opaque to the verifier.
#[verifier::external_type_specification]
#[verifier::external_body]
#[verifier::reject_recursive_types(K)]
#[verifier::reject_recursive_types(V)]
#[verifier::reject_recursive_types(S)]
pub struct ExIndexMap<K, V, S>(IndexMap<K, V, S>);

/// The key-value pairs that `map` holds, in the order in which it iterates
/// over them, each key given by its characters.
pub uninterp spec fn entries(map: IndexMap<String, Pod>) -> Seq<(Seq<char>, Pod)>;

/// `IndexMap::new`: the map it returns holds nothing.
#[verifier::external_body]
pub(crate) fn map_new() -> (map: IndexMap<String, Pod>)
    ensures
        entries(map) == Seq::<(Seq<char>, Pod)>::empty(),
{
    IndexMap::new()
}

/// `IndexMap::len`: the number of pairs in the map.
#[verifier::external_body]
pub(crate) fn map_len(map: &IndexMap<String, Pod>) -> (n: usize)
    ensures
        n == entries(*map).len(),
{
    map.len()
}

/// `IndexMap::get_index`: the pair at position `index` in iteration order, and
/// nothing for a position at or past the length.
#[verifier::external_body]
pub(crate) fn map_get_index(map: &IndexMap<String, Pod>, index: usize) -> (found: Option<
    (&String, &Pod),
>)
    ensures
        match found {
            Some((key, value)) => index < entries(*map).len() && (key@, *value) == entries(
                *map,
            )[index as int],
            None => index >= entries(*map).len(),
        },
{
    map.get_index(index)
}

/// `IndexMap::get_index_of`: the position of the pair whose key equals `key`,
/// and nothing when no key of the map equals it.
#[verifier::external_body]
pub(crate) fn map_get_index_of(map: &IndexMap<String, Pod>, key: &str) -> (found: Option<usize>)
    ensures
        match found {
            Some(index) => index < entries(*map).len() && entries(*map)[index as int].0 == key@,
            None => forall|j: int| 0 <= j < entries(*map).len() ==> entries(*map)[j].0 != key@,
        },
{
    map.get_index_of(key)
}

/// `IndexMap::insert_full`: where a key of the map equals `key`, the pair keeps
/// its key and its position, takes `value`, and the position and the value it
/// had are returned; where none does, the pair is appended after all others
/// and its position is returned with nothing.
#[verifier::external_body]
pub(crate) fn map_insert_full(map: &mut IndexMap<String, Pod>, key: String, value: Pod) -> (done: (
    usize,
    Option<Pod>,
))
    ensures
        match done.1 {
            Some(previous) => {
                &&& done.0 < entries(*old(map)).len()
                &&& entries(*old(map))[done.0 as int] == (key@, previous)
                &&& entries(*final(map)) == entries(*old(map)).update(done.0 as int, (key@, value))
            },
            None => {
                &&& forall|j: int|
                    0 <= j < entries(*old(map)).len() ==> entries(*old(map))[j].0 != key@
                &&& done.0 == entries(*old(map)).len()
                &&& entries(*final(map)) == entries(*old(map)).push((key@, value))
            },
        },
{
    map.insert_full(key, value)
}

/// `IndexMap::shift_remove_full`: where a key of the map equals `key`, the pair
/// leaves the map, the pairs after it move up by one place in the same order,
/// and its position, key and value are returned; where none does, the map is
/// unchanged and nothing is returned.
#[verifier::external_body]
pub(crate) fn map_shift_remove_full(map: &mut IndexMap<String, Pod>, key: &str) -> (taken: Option<
    (usize, String, Pod),
>)
    ensures
        match taken {
            Some((index, k, value)) => {
                &&& index < entries(*old(map)).len()
                &&& entries(*old(map))[index as int] == (key@, value)
                &&& k@ == key@
                &&& entries(*final(map)) == entries(*old(map)).remove(index as int)
            },
            None => {
                &&& forall|j: int|
                    0 <= j < entries(*old(map)).len() ==> entries(*old(map))[j].0 != key@
                &&& entries(*final(map)) == entries(*old(map))
            },
        },
{
    map.shift_remove_full(key)
}

/// `IndexMut<usize>` of `IndexMap`: the value at position `index` is replaced,
/// its key and every other pair stay. The position must be below the length.
#[verifier::external_body]
pub(crate) fn map_set_index(map: &mut IndexMap<String, Pod>, index: usize, value: Pod)
    requires
        index < entries(*old(map)).len(),
    ensures
        entries(*final(map)) == entries(*old(map)).update(
            index as int,
            (entries(*old(map))[index as int].0, value),
        ),
{
    map[index] = value;
}

} // verus!
