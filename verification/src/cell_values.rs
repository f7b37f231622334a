//! Trusted boundary to `indexmap`. Validated cell values are collected in an
//! `IndexMap<String, String>`, modelled as the sequence of its key-value
//! pairs in insertion order.

use vstd::prelude::*;

verus! {

#[verifier::external_type_specification]
#[verifier::external_body]
#[verifier::reject_recursive_types(K)]
#[verifier::reject_recursive_types(V)]
#[verifier::reject_recursive_types(S)]
pub struct ExIndexMap<K, V, S>(indexmap::IndexMap<K, V, S>);

/// The key-value pairs the map holds, in insertion order.
pub uninterp spec fn index_map_entries(m: indexmap::IndexMap<String, String>) -> Seq<
    (Seq<char>, Seq<char>),
>;

/// The position of the first entry with key `k`, if any.
pub open spec fn spec_entries_index_of(es: Seq<(Seq<char>, Seq<char>)>, k: Seq<char>) -> Option<
    int,
>
    decreases es.len(),
{
    if es.len() == 0 {
        None
    } else if es[0].0 == k {
        Some(0)
    } else {
        match spec_entries_index_of(es.drop_first(), k) {
            None => None,
            Some(i) => Some(i + 1),
        }
    }
}

/// How `IndexMap::insert` changes the entries: an existing key keeps its
/// position and takes the new value; a new key is appended.
pub open spec fn spec_entries_insert(
    es: Seq<(Seq<char>, Seq<char>)>,
    k: Seq<char>,
    v: Seq<char>,
) -> Seq<(Seq<char>, Seq<char>)> {
    match spec_entries_index_of(es, k) {
        Some(i) => es.update(i, (k, v)),
        None => es.push((k, v)),
    }
}

/// Relies on `IndexMap::new`: the new map is empty.
#[verifier::external_body]
pub fn im_new() -> (r: indexmap::IndexMap<String, String>)
    ensures
        index_map_entries(r) == Seq::<(Seq<char>, Seq<char>)>::empty(),
{
    indexmap::IndexMap::new()
}

/// Relies on `IndexMap::insert`: an equivalent key keeps its place in the
/// order and its value is replaced, with the older value returned; a new key
/// is inserted last, returning `None`.
#[verifier::external_body]
pub fn im_insert(m: &mut indexmap::IndexMap<String, String>, k: String, v: String) -> (r: Option<
    String,
>)
    ensures
        index_map_entries(*final(m)) == spec_entries_insert(
            index_map_entries(*old(m)),
            k@,
            v@,
        ),
        r is Some <==> spec_entries_index_of(index_map_entries(*old(m)), k@) is Some,
        r is Some ==> r->0@ == index_map_entries(*old(m))[spec_entries_index_of(
            index_map_entries(*old(m)),
            k@,
        )->0].1,
{
    m.insert(k, v)
}

} // verus!
