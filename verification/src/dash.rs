//! The concurrent map that holds the shared state, and what is taken on trust of it.
//!
//! Every function here takes the map by `&mut` where it changes it: the library is
//! the map's only owner, so no other handle changes it in between.

use crate::transaction_info::{TransactionInfo, TransactionInfoModel};
use dashmap::DashMap;
use vstd::prelude::*;

verus! {

/// `dashmap::DashMap`, of which nothing but the contracts below is known.
#[verifier::external_type_specification]
#[verifier::external_body]
#[verifier::reject_recursive_types(K)]
#[verifier::reject_recursive_types(V)]
#[verifier::reject_recursive_types(S)]
pub struct ExDashMap<K, V, S>(DashMap<K, V, S>);

/// The slot-to-count pairs that a tally map holds.
pub uninterp spec fn tally_counts(m: DashMap<u64, u64>) -> Map<u64, u64>;

/// `DashMap::new`: a map without entries.
#[verifier::external_body]
pub(crate) fn tally_new() -> (r: DashMap<u64, u64>)
    ensures
        tally_counts(r) =~= Map::empty(),
{
    DashMap::new()
}

/// `DashMap::get`: the count stored under `slot`, if there is one; the map is left as
/// it was.
#[verifier::external_body]
pub(crate) fn tally_get(m: &DashMap<u64, u64>, slot: u64) -> (r: Option<u64>)
    ensures
        r == (if tally_counts(*m).contains_key(slot) {
            Some(tally_counts(*m)[slot])
        } else {
            None
        }),
{
    m.get(&slot).map(|entry| *entry.value())
}

/// `DashMap::insert`: afterwards `slot` maps to `count`, every other slot is unchanged.
#[verifier::external_body]
pub(crate) fn tally_insert(m: &mut DashMap<u64, u64>, slot: u64, count: u64)
    ensures
        tally_counts(*final(m)) == tally_counts(*old(m)).insert(slot, count),
{
    m.insert(slot, count);
}

/// `DashMap::remove`: hands out the count stored under `slot`, if there is one, and
/// leaves the map without that slot.
#[verifier::external_body]
pub(crate) fn tally_remove(m: &mut DashMap<u64, u64>, slot: u64) -> (r: Option<u64>)
    ensures
        r == (if tally_counts(*old(m)).contains_key(slot) {
            Some(tally_counts(*old(m))[slot])
        } else {
            None
        }),
        tally_counts(*final(m)) == tally_counts(*old(m)).remove(slot),
{
    m.remove(&slot).map(|pair| pair.1)
}

/// The entries that an index map holds, by signature.
pub uninterp spec fn index_entries(m: DashMap<String, TransactionInfo>) -> Map<
    Seq<char>,
    TransactionInfoModel,
>;

/// `DashMap::new`: a map without entries.
#[verifier::external_body]
pub(crate) fn index_new() -> (r: DashMap<String, TransactionInfo>)
    ensures
        index_entries(r) =~= Map::empty(),
{
    DashMap::new()
}

/// `DashMap::contains_key`: whether an entry is stored under `key`.
#[verifier::external_body]
pub(crate) fn index_contains(m: &DashMap<String, TransactionInfo>, key: &String) -> (r: bool)
    ensures
        r == index_entries(*m).contains_key(key@),
{
    m.contains_key(key)
}

/// `DashMap::get`: a copy of the entry stored under `key`, if there is one; the map is
/// left as it was.
#[verifier::external_body]
pub(crate) fn index_get(m: &DashMap<String, TransactionInfo>, key: &String) -> (r: Option<
    TransactionInfo,
>)
    ensures
        match r {
            Some(info) => index_entries(*m).contains_key(key@) && info@ == index_entries(*m)[key@],
            None => !index_entries(*m).contains_key(key@),
        },
{
    m.get(key).map(|entry| entry.value().duplicate())
}

/// `DashMap::insert`: afterwards `key` maps to `info`, every other key is unchanged.
#[verifier::external_body]
pub(crate) fn index_insert(
    m: &mut DashMap<String, TransactionInfo>,
    key: String,
    info: TransactionInfo,
)
    ensures
        index_entries(*final(m)) == index_entries(*old(m)).insert(key@, info@),
{
    m.insert(key, info);
}

/// `DashMap::remove`: hands out the entry stored under `key`, if there is one, and
/// leaves the map without that key.
#[verifier::external_body]
pub(crate) fn index_remove(m: &mut DashMap<String, TransactionInfo>, key: &String) -> (r:
    Option<TransactionInfo>)
    ensures
        match r {
            Some(info) => index_entries(*old(m)).contains_key(key@) && info@ == index_entries(
                *old(m),
            )[key@],
            None => !index_entries(*old(m)).contains_key(key@),
        },
        index_entries(*final(m)) == index_entries(*old(m)).remove(key@),
{
    m.remove(key).map(|pair| pair.1)
}

/// `DashMap::iter`: every key of the map exactly once, in no particular order, each
/// with the first slot of its entry.
#[verifier::external_body]
pub(crate) fn index_first_slots(m: &DashMap<String, TransactionInfo>) -> (r: Vec<(String, u64)>)
    ensures
        forall|i: int|
            0 <= i < r.len() ==> index_entries(*m).contains_key(#[trigger] r[i].0@)
                && index_entries(*m)[r[i].0@].first_notification_slot == r[i].1,
        forall|i: int, j: int| 0 <= i < j < r.len() ==> r[i].0@ != r[j].0@,
        forall|k: Seq<char>| #[trigger]
            index_entries(*m).contains_key(k) ==> exists|i: int|
                0 <= i < r.len() && #[trigger] r[i].0@ == k,
{
    m.iter().map(|entry| (entry.key().clone(), entry.value().first_notification_slot)).collect()
}

} // verus!
