//! The insertion-ordered `IndexMap`s that describe a dataset's structure
//! (group → variables, variable → dimensions, variable → metadata,
//! dimension → coordinate variable), seen through their ordered entries.
use vstd::prelude::*;

use indexmap::IndexMap;

use crate::dataset::VarMeta;

verus! {

#[verifier::external_type_specification]
#[verifier::external_body]
#[verifier::reject_recursive_types(K)]
#[verifier::reject_recursive_types(V)]
#[verifier::reject_recursive_types(S)]
pub struct ExIndexMap<K, V, S>(IndexMap<K, V, S>);

/// The entries of a name → names map, in insertion order, each key and
/// value taken by its characters.
pub uninterp spec fn name_lists(m: IndexMap<String, Vec<String>>) -> Seq<(Seq<char>, Seq<Seq<char>>)>;

/// The value stored under `key`: the value of the first entry whose key
/// equals `key`.
pub open spec fn lookup(entries: Seq<(Seq<char>, Seq<Seq<char>>)>, key: Seq<char>) -> Option<
    Seq<Seq<char>>,
>
    decreases entries.len(),
{
    if entries.len() == 0 {
        None
    } else if entries[0].0 == key {
        Some(entries[0].1)
    } else {
        lookup(entries.drop_first(), key)
    }
}

/// Position of the first entry with key `key`, if any.
pub open spec fn key_index<V>(entries: Seq<(Seq<char>, V)>, key: Seq<char>) -> Option<int>
    decreases entries.len(),
{
    if entries.len() == 0 {
        None
    } else if entries[0].0 == key {
        Some(0)
    } else {
        match key_index(entries.drop_first(), key) {
            Some(i) => Some(i + 1),
            None => None,
        }
    }
}

/// The entries after inserting `(key, value)`: an entry with that key keeps
/// its place and takes the new value; otherwise the pair goes last.
pub open spec fn insert_entry<V>(entries: Seq<(Seq<char>, V)>, key: Seq<char>, value: V) -> Seq<
    (Seq<char>, V),
> {
    match key_index(entries, key) {
        Some(i) => entries.update(i, (key, value)),
        None => entries.push((key, value)),
    }
}

/// Calls `IndexMap::new`: a map with no entries.
#[verifier::external_body]
pub(crate) fn new_name_map() -> (m: IndexMap<String, Vec<String>>)
    ensures
        name_lists(m) == Seq::<(Seq<char>, Seq<Seq<char>>)>::empty(),
{
    IndexMap::new()
}

/// Calls `IndexMap::insert`: an entry with an equal key keeps its place in
/// the order and takes the new value; otherwise the pair is added last.
/// (The previous value it hands back is dropped.)
#[verifier::external_body]
pub(crate) fn name_map_insert(m: &mut IndexMap<String, Vec<String>>, key: String, value: Vec<String>)
    ensures
        name_lists(*final(m)) == insert_entry(name_lists(*old(m)), key@, value.deep_view()),
{
    m.insert(key, value);
}

/// Calls `IndexMap::len`: the number of entries.
#[verifier::external_body]
pub(crate) fn map_len(m: &IndexMap<String, Vec<String>>) -> (n: usize)
    ensures
        n == name_lists(*m).len(),
{
    m.len()
}

/// A borrowed entry: key and value.
pub type NameEntry<'a> = (&'a String, &'a Vec<String>);

/// Calls `IndexMap::get_index`: the entry at position `i` in insertion
/// order, or `None` past the end.
#[verifier::external_body]
pub(crate) fn map_entry<'a>(m: &'a IndexMap<String, Vec<String>>, i: usize) -> (r: Option<NameEntry<'a>>)
    ensures
        r is Some <==> i < name_lists(*m).len(),
        r matches Some(kv) ==> kv.0@ == name_lists(*m)[i as int].0 && kv.1.deep_view() == name_lists(*m)[i as int].1,
{
    m.get_index(i)
}

/// Calls `IndexMap::get`: the value stored under `key`, if any. Keys of an
/// `IndexMap` are distinct, so the value found is the one of the first
/// (only) entry with that key.
#[verifier::external_body]
pub(crate) fn map_get<'a>(m: &'a IndexMap<String, Vec<String>>, key: &String) -> (r: Option<&'a Vec<String>>)
    ensures
        r is None <==> lookup(name_lists(*m), key@) is None,
        r matches Some(v) ==> lookup(name_lists(*m), key@) == Some(v.deep_view()),
{
    m.get(key)
}

// ---------------------------------------------------------------------------
// Variable name → metadata
// ---------------------------------------------------------------------------
/// The entries of a name → metadata map, in insertion order.
pub uninterp spec fn meta_entries(m: IndexMap<String, VarMeta>) -> Seq<(Seq<char>, VarMeta)>;

/// The metadata stored under `key`: that of the first entry whose key
/// equals `key`.
pub open spec fn meta_lookup(entries: Seq<(Seq<char>, VarMeta)>, key: Seq<char>) -> Option<VarMeta>
    decreases entries.len(),
{
    if entries.len() == 0 {
        None
    } else if entries[0].0 == key {
        Some(entries[0].1)
    } else {
        meta_lookup(entries.drop_first(), key)
    }
}

/// Calls `IndexMap::new` for a name → metadata map.
#[verifier::external_body]
pub(crate) fn new_meta_map() -> (m: IndexMap<String, VarMeta>)
    ensures
        meta_entries(m) == Seq::<(Seq<char>, VarMeta)>::empty(),
{
    IndexMap::new()
}

/// Calls `IndexMap::insert` on a name → metadata map (same rule as for
/// the name map).
#[verifier::external_body]
pub(crate) fn meta_map_insert(m: &mut IndexMap<String, VarMeta>, key: String, value: VarMeta)
    ensures
        meta_entries(*final(m)) == insert_entry(meta_entries(*old(m)), key@, value),
{
    m.insert(key, value);
}

/// Calls `IndexMap::len` on a name → metadata map.
#[verifier::external_body]
pub(crate) fn meta_len(m: &IndexMap<String, VarMeta>) -> (n: usize)
    ensures
        n == meta_entries(*m).len(),
{
    m.len()
}

/// A borrowed name → metadata entry.
pub type MetaEntry<'a> = (&'a String, &'a VarMeta);

/// Calls `IndexMap::get_index` on a name → metadata map: the entry at
/// position `i` in insertion order, or `None` past the end.
#[verifier::external_body]
pub(crate) fn meta_entry<'a>(m: &'a IndexMap<String, VarMeta>, i: usize) -> (r: Option<MetaEntry<'a>>)
    ensures
        r is Some <==> i < meta_entries(*m).len(),
        r matches Some(kv) ==> kv.0@ == meta_entries(*m)[i as int].0 && *kv.1 == meta_entries(*m)[i as int].1,
{
    m.get_index(i)
}

/// Calls `IndexMap::get` on a name → metadata map: the metadata stored
/// under `key`, if any (keys are distinct).
#[verifier::external_body]
pub(crate) fn meta_get<'a>(m: &'a IndexMap<String, VarMeta>, key: &String) -> (r: Option<&'a VarMeta>)
    ensures
        r is None <==> meta_lookup(meta_entries(*m), key@) is None,
        r matches Some(v) ==> meta_lookup(meta_entries(*m), key@) == Some(*v),
{
    m.get(key)
}

// ---------------------------------------------------------------------------
// Dimension name → coordinate variable name
// ---------------------------------------------------------------------------
/// The entries of a name → name map, in insertion order.
pub uninterp spec fn pair_entries(m: IndexMap<String, String>) -> Seq<(Seq<char>, Seq<char>)>;

/// Some entry has key `key`.
pub open spec fn has_key(entries: Seq<(Seq<char>, Seq<char>)>, key: Seq<char>) -> bool {
    exists|i: int| 0 <= i < entries.len() && #[trigger] entries[i].0 == key
}

/// Calls `IndexMap::new` for a name → name map.
#[verifier::external_body]
pub(crate) fn new_pair_map() -> (m: IndexMap<String, String>)
    ensures
        pair_entries(m) == Seq::<(Seq<char>, Seq<char>)>::empty(),
{
    IndexMap::new()
}

/// Calls `IndexMap::insert` on a name → name map (same rule as for the
/// name map).
#[verifier::external_body]
pub(crate) fn pair_map_insert(m: &mut IndexMap<String, String>, key: String, value: String)
    ensures
        pair_entries(*final(m)) == insert_entry(pair_entries(*old(m)), key@, value@),
{
    m.insert(key, value);
}

/// Calls `IndexMap::contains_key` on a name → name map.
#[verifier::external_body]
pub(crate) fn pair_contains_key(m: &IndexMap<String, String>, key: &String) -> (r: bool)
    ensures
        r == has_key(pair_entries(*m), key@),
{
    m.contains_key(key)
}

} // verus!
