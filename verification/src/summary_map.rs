//! Trusted declarations for the insertion-ordered map (of the outside crate
//! indexmap) that backs the summary. The map's contents are named as the
//! sequence of its (key, value) pairs in insertion order; each method the
//! summary uses is wrapped with the contract that the crate's documentation
//! and source give it.

use vstd::prelude::*;

use indexmap::IndexMap;

verus! {

/// Relies on indexmap's `IndexMap` type: declared opaquely so that a summary
/// can hold one; its contents are reached only through `map_pairs`.
#[verifier::external_type_specification]
#[verifier::external_body]
#[verifier::reject_recursive_types(K)]
#[verifier::reject_recursive_types(V)]
#[verifier::reject_recursive_types(S)]
pub struct ExIndexMap<K, V, S>(IndexMap<K, V, S>);

/// The (key, value) pairs of a summary map, in insertion order.
pub uninterp spec fn map_pairs(m: IndexMap<Vec<u8>, usize>) -> Seq<(Seq<u8>, usize)>;

/// The position of the pair holding `key`, if one does.
pub open spec fn find_key(pairs: Seq<(Seq<u8>, usize)>, key: Seq<u8>) -> Option<int>
    decreases pairs.len(),
{
    if pairs.len() == 0 {
        None
    } else {
        let prev = find_key(pairs.drop_last(), key);
        if prev is Some {
            prev
        } else if pairs.last().0 == key {
            Some(pairs.len() - 1)
        } else {
            None
        }
    }
}

/// Relies on indexmap's `IndexMap::new`: a new map is empty.
#[verifier::external_body]
pub fn summary_map_new() -> (r: IndexMap<Vec<u8>, usize>)
    ensures
        map_pairs(r) == Seq::<(Seq<u8>, usize)>::empty(),
{
    IndexMap::new()
}

/// Relies on indexmap's `IndexMap::get`: the value stored for an equal key,
/// or `None` where no pair holds the key.
#[verifier::external_body]
pub fn summary_map_get(m: &IndexMap<Vec<u8>, usize>, key: &Vec<u8>) -> (r: Option<usize>)
    ensures
        match find_key(map_pairs(*m), key@) {
            Some(i) => r == Some(map_pairs(*m)[i].1),
            None => r is None,
        },
{
    m.get(key).copied()
}

/// Relies on indexmap's `IndexMap::insert`: an existing key keeps its place
/// in the order and its value is replaced; a new key is appended last.
#[verifier::external_body]
pub fn summary_map_insert(m: &mut IndexMap<Vec<u8>, usize>, key: Vec<u8>, value: usize)
    ensures
        match find_key(map_pairs(*old(m)), key@) {
            Some(i) => map_pairs(*final(m)) == map_pairs(*old(m)).update(i, (key@, value)),
            None => map_pairs(*final(m)) == map_pairs(*old(m)).push((key@, value)),
        },
{
    m.insert(key, value);
}

/// Relies on indexmap's `IndexMap::get_index`: the pair at a position in
/// insertion order, present exactly for positions below the length.
#[verifier::external_body]
pub fn summary_map_get_index(m: &IndexMap<Vec<u8>, usize>, i: usize) -> (r: Option<(Vec<u8>, usize)>)
    ensures
        i < map_pairs(*m).len() ==> (match r {
            Some(p) => p.0@ == map_pairs(*m)[i as int].0 && p.1 == map_pairs(*m)[i as int].1,
            None => false,
        }),
        i >= map_pairs(*m).len() ==> r is None,
{
    m.get_index(i).map(|p: (&Vec<u8>, &usize)| (p.0.clone(), *p.1))
}

} // verus!
