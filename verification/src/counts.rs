//! Per-question counts, kept in the order the questions were first seen.
//!
//! The counts live in an `IndexMap`, whose iteration order is the order keys
//! were first inserted. The map is modelled by its entries: a sequence of
//! (key, count) pairs in that order, with no key twice.

use indexmap::IndexMap;
use vstd::prelude::*;

verus! {

/// `indexmap::IndexMap`, opaque; its contents are [`count_entries`].
#[verifier::external_type_specification]
#[verifier::external_body]
#[verifier::reject_recursive_types(K)]
#[verifier::reject_recursive_types(V)]
#[verifier::reject_recursive_types(S)]
pub struct ExIndexMap<K, V, S>(IndexMap<K, V, S>);

/// What a map of counts holds: its (key, count) entries in insertion order.
pub uninterp spec fn count_entries(m: IndexMap<String, usize>) -> Seq<(Seq<char>, usize)>;

/// The position of the first entry keyed `key`.
pub open spec fn key_index(entries: Seq<(Seq<char>, usize)>, key: Seq<char>) -> Option<int>
    decreases entries.len(),
{
    if entries.len() == 0 {
        None
    } else if entries[0].0 == key {
        Some(0)
    } else {
        match key_index(entries.drop_first(), key) {
            Some(i) => Some(i + 1),
            None => None,
        }
    }
}

/// The count stored under `key`, if any.
pub open spec fn lookup(entries: Seq<(Seq<char>, usize)>, key: Seq<char>) -> Option<usize> {
    match key_index(entries, key) {
        Some(i) => Some(entries[i].1),
        None => None,
    }
}

/// The entries after storing `value` under `key`: an existing key keeps its
/// place and takes the new value; a new key goes last.
pub open spec fn put(entries: Seq<(Seq<char>, usize)>, key: Seq<char>, value: usize) -> Seq<
    (Seq<char>, usize),
> {
    match key_index(entries, key) {
        Some(i) => entries.update(i, (key, value)),
        None => entries.push((key, value)),
    }
}

/// `IndexMap::new`: a map with no entries.
#[verifier::external_body]
pub(crate) fn counts_new() -> (m: IndexMap<String, usize>)
    ensures
        count_entries(m) == Seq::<(Seq<char>, usize)>::empty(),
{
    IndexMap::new()
}

/// `IndexMap::get`, the count copied out: the value stored under the key,
/// which the map holds at most once.
#[verifier::external_body]
pub(crate) fn counts_get(m: &IndexMap<String, usize>, key: &String) -> (v: Option<usize>)
    ensures
        v == lookup(count_entries(*m), key@),
{
    m.get(key).copied()
}

/// `IndexMap::insert`: an existing key keeps its position and takes the new
/// value; a new key is appended last.
#[verifier::external_body]
pub(crate) fn counts_insert(m: &mut IndexMap<String, usize>, key: String, value: usize)
    ensures
        count_entries(*final(m)) == put(count_entries(*old(m)), key@, value),
{
    m.insert(key, value);
}

/// Where the first entry keyed `key` sits, it is in range and keyed `key`.
pub proof fn lemma_key_index(entries: Seq<(Seq<char>, usize)>, key: Seq<char>)
    ensures
        key_index(entries, key) matches Some(i) ==> 0 <= i < entries.len() && entries[i].0 == key,
        key_index(entries, key) is None ==> forall|i: int|
            0 <= i < entries.len() ==> #[trigger] entries[i].0 != key,
    decreases entries.len(),
{
    if entries.len() > 0 {
        lemma_key_index(entries.drop_first(), key);
        assert forall|i: int| 0 < i < entries.len() implies #[trigger] entries[i] == entries.drop_first()[i - 1] by {}
    }
}

/// Whether no key appears twice.
pub open spec fn distinct_keys(entries: Seq<(Seq<char>, usize)>) -> bool {
    forall|i: int, j: int| 0 <= i < j < entries.len() ==> entries[i].0 != entries[j].0
}

/// With distinct keys, the entry keyed `q` is the one found.
pub proof fn lemma_key_index_unique(entries: Seq<(Seq<char>, usize)>, q: Seq<char>, i: int)
    requires
        distinct_keys(entries),
        0 <= i < entries.len(),
        entries[i].0 == q,
    ensures
        key_index(entries, q) == Some(i),
{
    lemma_key_index(entries, q);
}

} // verus!
