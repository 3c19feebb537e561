//! Ordered indexes: maps from a name or a number to a position, which remember
//! the order in which their keys first came.

use vstd::prelude::*;

use indexmap::IndexMap;

verus! {

/// `indexmap`'s hash map that keeps its keys in insertion order.
#[verifier::external_type_specification]
#[verifier::external_body]
#[verifier::reject_recursive_types(K)]
#[verifier::reject_recursive_types(V)]
#[verifier::reject_recursive_types(S)]
pub struct ExIndexMap<K, V, S>(indexmap::IndexMap<K, V, S>);

/// The entries of a map from names to positions, in the map's order.
pub uninterp spec fn name_entries(m: IndexMap<String, usize>) -> Seq<(Seq<char>, usize)>;

/// The entries of a map from numbers to positions, in the map's order.
pub uninterp spec fn number_entries(m: IndexMap<u128, usize>) -> Seq<(u128, usize)>;

/// Whether `key` is the key of some entry.
pub open spec fn has_key<K>(entries: Seq<(K, usize)>, key: K) -> bool {
    exists|i: int| 0 <= i < entries.len() && #[trigger] entries[i].0 == key
}

/// Where `key` stands among the entries.
pub open spec fn key_at<K>(entries: Seq<(K, usize)>, key: K) -> int {
    choose|i: int| 0 <= i < entries.len() && #[trigger] entries[i].0 == key
}

/// No two entries share a key.
pub open spec fn keys_differ<K>(entries: Seq<(K, usize)>) -> bool {
    forall|i: int, j: int|
        0 <= i < j < entries.len() ==> (#[trigger] entries[i]).0 != (#[trigger] entries[j]).0
}

/// The entries after `key` was set to `value`: a known key keeps its place, a
/// new one comes last.
pub open spec fn with_entry<K>(entries: Seq<(K, usize)>, key: K, value: usize) -> Seq<(K, usize)> {
    if has_key(entries, key) {
        entries.update(key_at(entries, key), (key, value))
    } else {
        entries.push((key, value))
    }
}

/// Setting a key keeps the keys apart.
pub proof fn lemma_with_entry_keeps_keys_apart<K>(entries: Seq<(K, usize)>, key: K, value: usize)
    requires
        keys_differ(entries),
    ensures
        keys_differ(with_entry(entries, key, value)),
{
}

/// `IndexMap::new`: a map without entries.
#[verifier::external_body]
pub(crate) fn new_name_index() -> (m: IndexMap<String, usize>)
    ensures
        name_entries(m) == Seq::<(Seq<char>, usize)>::empty(),
{
    IndexMap::new()
}

/// `IndexMap::insert` with a string key: the value of a known key is replaced
/// where it stands, a new key is put behind all others.
#[verifier::external_body]
pub(crate) fn name_index_insert(m: &mut IndexMap<String, usize>, key: &str, value: usize)
    requires
        keys_differ(name_entries(*old(m))),
    ensures
        name_entries(*final(m)) == with_entry(name_entries(*old(m)), key@, value),
{
    m.insert(key.to_string(), value);
}

/// `IndexMap::get` with a string key: the value of that key, if it is there.
#[verifier::external_body]
pub(crate) fn name_index_get(m: &IndexMap<String, usize>, key: &str) -> (found: Option<usize>)
    requires
        keys_differ(name_entries(*m)),
    ensures
        found == (if has_key(name_entries(*m), key@) {
            Some(name_entries(*m)[key_at(name_entries(*m), key@)].1)
        } else {
            None
        }),
{
    m.get(key).copied()
}

/// `IndexMap::len`: the number of entries.
#[verifier::external_body]
pub(crate) fn name_index_len(m: &IndexMap<String, usize>) -> (n: usize)
    ensures
        n == name_entries(*m).len(),
{
    m.len()
}

/// `IndexMap::get_index`: the entry at a position in the map's order.
#[verifier::external_body]
pub(crate) fn name_index_entry(m: &IndexMap<String, usize>, i: usize) -> (entry: (&str, usize))
    requires
        i < name_entries(*m).len(),
    ensures
        entry.0@ == name_entries(*m)[i as int].0,
        entry.1 == name_entries(*m)[i as int].1,
{
    let (key, value) = m.get_index(i).unwrap();
    (key.as_str(), *value)
}

/// `IndexMap::new`: a map without entries.
#[verifier::external_body]
pub(crate) fn new_number_index() -> (m: IndexMap<u128, usize>)
    ensures
        number_entries(m) == Seq::<(u128, usize)>::empty(),
{
    IndexMap::new()
}

/// `IndexMap::insert` with a numeric key: the value of a known key is replaced
/// where it stands, a new key is put behind all others.
#[verifier::external_body]
pub(crate) fn number_index_insert(m: &mut IndexMap<u128, usize>, key: u128, value: usize)
    requires
        keys_differ(number_entries(*old(m))),
    ensures
        number_entries(*final(m)) == with_entry(number_entries(*old(m)), key, value),
{
    m.insert(key, value);
}

/// `IndexMap::get` with a numeric key: the value of that key, if it is there.
#[verifier::external_body]
pub(crate) fn number_index_get(m: &IndexMap<u128, usize>, key: u128) -> (found: Option<usize>)
    requires
        keys_differ(number_entries(*m)),
    ensures
        found == (if has_key(number_entries(*m), key) {
            Some(number_entries(*m)[key_at(number_entries(*m), key)].1)
        } else {
            None
        }),
{
    m.get(&key).copied()
}

} // verus!
