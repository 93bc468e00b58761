//! The lock-free collections that the queue and the consensus engine keep
//! their bookkeeping in.
//!
//! The queue of hashes is `crossbeam::queue::ArrayQueue`; the maps and the
//! set are `dashmap::DashMap` and `dashmap::DashSet`, keyed by the 32 bytes
//! of a hash. Verus sees none of them from the inside: what each holds has a
//! name, and each method that this crate calls has a wrapper whose contract
//! says over those names what the method does.

use crate::crypto;
use crate::tx::{AcceptedTransaction, TransactionView};
use crossbeam::queue::ArrayQueue;
use dashmap::{DashMap, DashSet};
use std::collections::hash_map::RandomState;
use vstd::prelude::*;

verus! {

/// `crossbeam::queue::ArrayQueue`, a bounded queue.
#[verifier::external_type_specification]
#[verifier::external_body]
#[verifier::reject_recursive_types(T)]
pub struct ExArrayQueue<T>(ArrayQueue<T>);

/// `dashmap::DashMap`, a concurrent hash map.
#[verifier::external_type_specification]
#[verifier::external_body]
#[verifier::reject_recursive_types(K)]
#[verifier::reject_recursive_types(V)]
#[verifier::reject_recursive_types(S)]
pub struct ExDashMap<K, V, S>(DashMap<K, V, S>);

/// `dashmap::DashSet`, a concurrent hash set.
#[verifier::external_type_specification]
#[verifier::external_body]
#[verifier::reject_recursive_types(K)]
#[verifier::reject_recursive_types(S)]
pub struct ExDashSet<K, S>(DashSet<K, S>);

/// The hashes that wait in a queue, the one that leaves next first.
pub uninterp spec fn queued(queue: &ArrayQueue<crypto::Hash>) -> Seq<crypto::Hash>;

/// The capacity that a queue was made with.
pub uninterp spec fn queue_capacity(queue: &ArrayQueue<crypto::Hash>) -> usize;

/// The transactions that a map holds, each under the bytes of a hash.
pub uninterp spec fn stored(map: &DashMap<[u8; 32], AcceptedTransaction, RandomState>) -> Map<
    [u8; 32],
    TransactionView,
>;

/// The times that a map holds, each under the bytes of a hash.
pub uninterp spec fn noted(map: &DashMap<[u8; 32], u128, RandomState>) -> Map<[u8; 32], u128>;

/// The byte strings that a set holds.
pub uninterp spec fn members(set: &DashSet<[u8; 32], RandomState>) -> Set<[u8; 32]>;

/// Whether `transactions` are what `map` holds under the keys of `keys`,
/// in the order of `keys`, and `keys` are all the keys of `map`, each once.
pub open spec fn listed_by(
    map: Map<[u8; 32], TransactionView>,
    transactions: Seq<AcceptedTransaction>,
    keys: Seq<[u8; 32]>,
) -> bool {
    &&& keys.no_duplicates()
    &&& keys.to_set() == map.dom()
    &&& keys.len() == transactions.len()
    &&& forall|i: int| 0 <= i < keys.len() ==> (#[trigger] transactions[i])@ == map[keys[i]]
}

/// Whether `transactions` are all that `map` holds, each entry once, in
/// some order.
pub open spec fn lists_each_once(
    map: Map<[u8; 32], TransactionView>,
    transactions: Seq<AcceptedTransaction>,
) -> bool {
    exists|keys: Seq<[u8; 32]>| listed_by(map, transactions, keys)
}

/// Whether `transaction` is one of `transactions`.
pub open spec fn lists(
    transactions: Seq<AcceptedTransaction>,
    transaction: TransactionView,
) -> bool {
    exists|i: int| 0 <= i < transactions.len() && (#[trigger] transactions[i])@ == transaction
}

/// Calls `ArrayQueue::new`, which panics on a capacity of zero, on one
/// whose successor has no power of two at or above it in a `usize`, and on
/// one whose slots, of forty bytes each, take more bytes than an `isize`
/// counts. The new queue is empty and has the capacity asked for.
#[verifier::external_body]
pub(crate) fn queue_new(capacity: usize) -> (queue: ArrayQueue<crypto::Hash>)
    requires
        0 < capacity <= usize::MAX / 128,
    ensures
        queued(&queue) == Seq::<crypto::Hash>::empty(),
        queue_capacity(&queue) == capacity,
{
    ArrayQueue::new(capacity)
}

/// Calls `ArrayQueue::push`. A queue that is not full takes the hash at its
/// end; a full one is left as it is and the hash comes back as the error.
#[verifier::external_body]
pub(crate) fn queue_push(queue: &mut ArrayQueue<crypto::Hash>, hash: crypto::Hash) -> (r: Result<
    (),
    crypto::Hash,
>)
    ensures
        queue_capacity(final(queue)) == queue_capacity(old(queue)),
        queued(old(queue)).len() < queue_capacity(old(queue)) ==> r is Ok && queued(final(queue))
            == queued(old(queue)).push(hash),
        queued(old(queue)).len() >= queue_capacity(old(queue)) ==> r is Err && r->Err_0 == hash
            && queued(final(queue)) == queued(old(queue)),
{
    queue.push(hash)
}

/// Calls `ArrayQueue::pop`. A queue that is not empty gives its first hash
/// and keeps the rest; an empty one gives `None`.
#[verifier::external_body]
pub(crate) fn queue_pop(queue: &mut ArrayQueue<crypto::Hash>) -> (r: Option<crypto::Hash>)
    ensures
        queue_capacity(final(queue)) == queue_capacity(old(queue)),
        queued(old(queue)).len() == 0 ==> r is None && queued(final(queue)) == queued(old(queue)),
        queued(old(queue)).len() > 0 ==> r == Some(queued(old(queue))[0]) && queued(final(queue))
            == queued(old(queue)).drop_first(),
{
    queue.pop()
}

/// Calls `ArrayQueue::len`: how many hashes wait in the queue.
#[verifier::external_body]
pub(crate) fn queue_len(queue: &ArrayQueue<crypto::Hash>) -> (n: usize)
    ensures
        n == queued(queue).len(),
{
    queue.len()
}

/// Calls `DashMap::new`: a map that holds nothing.
#[verifier::external_body]
pub(crate) fn store_new() -> (map: DashMap<[u8; 32], AcceptedTransaction, RandomState>)
    ensures
        stored(&map).dom() == Set::<[u8; 32]>::empty(),
{
    DashMap::new()
}

/// Calls `DashMap::contains_key`.
#[verifier::external_body]
pub(crate) fn store_contains(
    map: &DashMap<[u8; 32], AcceptedTransaction, RandomState>,
    key: &[u8; 32],
) -> (r: bool)
    ensures
        r == stored(map).dom().contains(*key),
{
    map.contains_key(key)
}

/// Calls `DashMap::insert`, which puts the transaction under the key in
/// place of what was there.
#[verifier::external_body]
pub(crate) fn store_insert(
    map: &mut DashMap<[u8; 32], AcceptedTransaction, RandomState>,
    key: [u8; 32],
    transaction: AcceptedTransaction,
)
    ensures
        stored(final(map)) == stored(old(map)).insert(key, transaction@),
{
    map.insert(key, transaction);
}

/// Calls `DashMap::remove`, which takes out what is under the key and
/// gives it back, or gives `None` if nothing is.
#[verifier::external_body]
pub(crate) fn store_remove(
    map: &mut DashMap<[u8; 32], AcceptedTransaction, RandomState>,
    key: &[u8; 32],
) -> (r: Option<AcceptedTransaction>)
    ensures
        stored(final(map)) == stored(old(map)).remove(*key),
        r is Some == stored(old(map)).dom().contains(*key),
        r is Some ==> r->Some_0@ == stored(old(map))[*key],
{
    map.remove(key).map(|entry| entry.1)
}

/// Calls `DashMap::get` and copies what is under the key with
/// `AcceptedTransaction::clone`, or gives `None` if nothing is.
#[verifier::external_body]
pub(crate) fn store_get(
    map: &DashMap<[u8; 32], AcceptedTransaction, RandomState>,
    key: &[u8; 32],
) -> (r: Option<AcceptedTransaction>)
    ensures
        r is Some == stored(map).dom().contains(*key),
        r is Some ==> r->Some_0@ == stored(map)[*key],
{
    map.get(key).map(|entry| entry.value().clone())
}

/// Calls `DashMap::iter` and copies each transaction with
/// `AcceptedTransaction::clone`. The map is walked in no order that could
/// be told beforehand, and each of its entries once: what is handed out is
/// what the map holds under its keys, taken in some order.
#[verifier::external_body]
pub(crate) fn store_values(map: &DashMap<[u8; 32], AcceptedTransaction, RandomState>) -> (r: Vec<
    AcceptedTransaction,
>)
    ensures
        lists_each_once(stored(map), r@),
{
    map.iter().map(|entry| entry.value().clone()).collect()
}

/// Calls `DashMap::new`: a map that holds nothing.
#[verifier::external_body]
pub(crate) fn notes_new() -> (map: DashMap<[u8; 32], u128, RandomState>)
    ensures
        noted(&map).dom() == Set::<[u8; 32]>::empty(),
{
    DashMap::new()
}

/// Calls `DashMap::contains_key`.
#[verifier::external_body]
pub(crate) fn notes_contains(map: &DashMap<[u8; 32], u128, RandomState>, key: &[u8; 32]) -> (r:
    bool)
    ensures
        r == noted(map).dom().contains(*key),
{
    map.contains_key(key)
}

/// Calls `DashMap::insert`, which puts the time under the key in place of
/// what was there.
#[verifier::external_body]
pub(crate) fn notes_insert(
    map: &mut DashMap<[u8; 32], u128, RandomState>,
    key: [u8; 32],
    time: u128,
)
    ensures
        noted(final(map)) == noted(old(map)).insert(key, time),
{
    map.insert(key, time);
}

/// Calls `DashMap::remove`, which takes out what is under the key.
#[verifier::external_body]
pub(crate) fn notes_remove(map: &mut DashMap<[u8; 32], u128, RandomState>, key: &[u8; 32])
    ensures
        noted(final(map)) == noted(old(map)).remove(*key),
{
    map.remove(key);
}

/// Calls `DashMap::get` and copies the time under the key, or gives `None`
/// if nothing is under it.
#[verifier::external_body]
pub(crate) fn notes_get(map: &DashMap<[u8; 32], u128, RandomState>, key: &[u8; 32]) -> (r: Option<
    u128,
>)
    ensures
        r is Some == noted(map).dom().contains(*key),
        r is Some ==> r->Some_0 == noted(map)[*key],
{
    map.get(key).map(|entry| *entry.value())
}

/// Calls `DashMap::clear`, which takes everything out.
#[verifier::external_body]
pub(crate) fn notes_clear(map: &mut DashMap<[u8; 32], u128, RandomState>)
    ensures
        noted(final(map)).dom() == Set::<[u8; 32]>::empty(),
{
    map.clear();
}

/// Calls `DashSet::new`: a set that holds nothing.
#[verifier::external_body]
pub(crate) fn set_new() -> (set: DashSet<[u8; 32], RandomState>)
    ensures
        members(&set) == Set::<[u8; 32]>::empty(),
{
    DashSet::new()
}

/// Calls `DashSet::insert`, which puts the key in.
#[verifier::external_body]
pub(crate) fn set_insert(set: &mut DashSet<[u8; 32], RandomState>, key: [u8; 32])
    ensures
        members(final(set)) == members(old(set)).insert(key),
{
    set.insert(key);
}

/// Calls `DashSet::contains`.
#[verifier::external_body]
pub(crate) fn set_contains(set: &DashSet<[u8; 32], RandomState>, key: &[u8; 32]) -> (r: bool)
    ensures
        r == members(set).contains(*key),
{
    set.contains(key)
}

/// Calls `DashSet::clear`, which takes everything out.
#[verifier::external_body]
pub(crate) fn set_clear(set: &mut DashSet<[u8; 32], RandomState>)
    ensures
        members(final(set)) == Set::<[u8; 32]>::empty(),
{
    set.clear();
}

} // verus!
