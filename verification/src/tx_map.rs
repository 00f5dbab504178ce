//! Insertion-ordered map from a first signature to a transaction region.

use crate::bindings::TransactionRegion;
use indexmap::map::Entry;
use indexmap::IndexMap;
use rustc_hash::FxBuildHasher;
use vstd::prelude::*;

verus! {

/// `indexmap::IndexMap`, opaque.
#[verifier::external_type_specification]
#[verifier::external_body]
#[verifier::reject_recursive_types(K)]
#[verifier::reject_recursive_types(V)]
#[verifier::reject_recursive_types(S)]
pub struct ExIndexMap<K, V, S>(indexmap::IndexMap<K, V, S>);

/// `rustc_hash::FxBuildHasher`, opaque.
#[verifier::external_type_specification]
#[verifier::external_body]
pub struct ExFxBuildHasher(rustc_hash::FxBuildHasher);

/// Transactions by first signature, in the order of their insertion.
pub type TxMap = IndexMap<[u8; 64], TransactionRegion, FxBuildHasher>;

/// The entries of `map`, in its order.
pub uninterp spec fn tx_entries(map: TxMap) -> Seq<([u8; 64], TransactionRegion)>;

/// Whether some entry has signature `key`.
pub open spec fn has_key(entries: Seq<([u8; 64], TransactionRegion)>, key: [u8; 64]) -> bool {
    exists|i: int| 0 <= i < entries.len() && (#[trigger] entries[i]).0 == key
}

/// `IndexMap::with_capacity_and_hasher`: a map without entries.
#[verifier::external_body]
pub(crate) fn tx_map_with_capacity(n: usize) -> (map: TxMap)
    requires
        n <= 0x1_0000,
    ensures
        tx_entries(map) == Seq::<([u8; 64], TransactionRegion)>::empty(),
{
    IndexMap::with_capacity_and_hasher(n, FxBuildHasher)
}

/// `IndexMap::entry` and `VacantEntry::insert`: where no entry has signature `key`, puts one
/// behind all others and returns its position; else leaves the map as it is.
#[verifier::external_body]
pub(crate) fn tx_map_insert(map: &mut TxMap, key: [u8; 64], value: TransactionRegion) -> (index:
    Option<usize>)
    ensures
        index is None <==> has_key(tx_entries(*old(map)), key),
        index is None ==> tx_entries(*final(map)) == tx_entries(*old(map)),
        index matches Some(i) ==> i == tx_entries(*old(map)).len(),
        index is Some ==> tx_entries(*final(map)) == tx_entries(*old(map)).push((key, value)),
{
    match map.entry(key) {
        Entry::Occupied(_) => None,
        Entry::Vacant(slot) => {
            let index = slot.index();
            slot.insert(value);
            Some(index)
        },
    }
}

/// `IndexMap::len`: the number of entries.
#[verifier::external_body]
pub(crate) fn tx_map_len(map: &TxMap) -> (n: usize)
    ensures
        n == tx_entries(*map).len(),
{
    map.len()
}

/// `IndexMap::get_index_of`: the position of an entry with signature `key`, where there is one.
#[verifier::external_body]
pub(crate) fn tx_map_index_of(map: &TxMap, key: &[u8; 64]) -> (index: Option<usize>)
    ensures
        index is Some <==> has_key(tx_entries(*map), *key),
        index matches Some(i) ==> i < tx_entries(*map).len() && tx_entries(*map)[i as int].0 == *key,
{
    map.get_index_of(key)
}

/// `IndexMap::get_index`: the entry at position `index`.
#[verifier::external_body]
pub(crate) fn tx_map_get(map: &TxMap, index: usize) -> (entry: Option<([u8; 64], TransactionRegion)>)
    ensures
        entry == (if index < tx_entries(*map).len() {
            Some(tx_entries(*map)[index as int])
        } else {
            None
        }),
{
    map.get_index(index).map(|(key, value)| (*key, *value))
}

/// `IndexMap::shift_remove_index`: takes the entry at `index` out and moves those behind it up, in
/// their order; nothing where there is no such entry.
#[verifier::external_body]
pub(crate) fn tx_map_shift_remove(map: &mut TxMap, index: usize) -> (entry: Option<(
    [u8; 64],
    TransactionRegion,
)>)
    ensures
        index >= tx_entries(*old(map)).len() ==> entry is None && tx_entries(*final(map))
            == tx_entries(*old(map)),
        index < tx_entries(*old(map)).len() ==> entry == Some(
            tx_entries(*old(map))[index as int],
        ) && tx_entries(*final(map)) == tx_entries(*old(map)).remove(index as int),
{
    map.shift_remove_index(index)
}

/// `IndexMap::drain` over `..end`: takes the first `end` entries out, in order, and keeps the
/// order of the others.
#[verifier::external_body]
pub(crate) fn tx_map_drain(map: &mut TxMap, end: usize) -> (drained: Vec<(
    [u8; 64],
    TransactionRegion,
)>)
    requires
        end <= tx_entries(*old(map)).len(),
    ensures
        drained@ == tx_entries(*old(map)).take(end as int),
        tx_entries(*final(map)) == tx_entries(*old(map)).skip(end as int),
{
    map.drain(..end).collect()
}

} // verus!
