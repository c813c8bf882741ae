//! Trusted wrappers around `ic_stable_structures`.
//!
//! [`ByteStore`] holds one stable B-tree map from `u64` keys to byte records,
//! and [`CounterCell`] one persisted `u64`. [`storage_new`] creates the one
//! counter and the three maps the application uses, each on its own virtual
//! memory carved out of the runtime's default memory by a `MemoryManager`,
//! so the four structures never alias — on a canister they would otherwise
//! all sit at address zero of the single stable memory. The wrappers in this
//! module are the only code that touches the outside crate; everything above
//! them is verified against the contracts stated here, which mirror what the
//! crate's own sources show of `BTreeMap::{new, insert, get, remove, iter}`,
//! `Cell::{new, get, set}` and `MemoryManager::{init, get}`.

use vstd::prelude::*;

verus! {

/// An ordered map from `u64` ids to byte records, backed by
/// `ic_stable_structures::BTreeMap` on its own virtual memory.
#[verifier::external_body]
pub struct ByteStore {
    inner: ic_stable_structures::BTreeMap<
        u64,
        Vec<u8>,
        ic_stable_structures::memory_manager::VirtualMemory<
            ic_stable_structures::DefaultMemoryImpl,
        >,
    >,
}

/// The entries a [`ByteStore`] currently holds.
pub uninterp spec fn store_map(s: ByteStore) -> Map<u64, Seq<u8>>;

/// Relies on `BTreeMap::insert`: it upserts the entry and returns the value
/// the key held before, if any. The `u64` key is bounded and a `Vec<u8>`
/// value is unbounded, so no size check can reject the entry.
#[verifier::external_body]
pub fn byte_store_insert(s: &mut ByteStore, k: u64, v: Vec<u8>) -> (prev: Option<Vec<u8>>)
    ensures
        store_map(*final(s)) == store_map(*old(s)).insert(k, v@),
        match prev {
            Some(p) => store_map(*old(s)).contains_key(k) && p@ == store_map(*old(s))[k],
            None => !store_map(*old(s)).contains_key(k),
        },
{
    s.inner.insert(k, v)
}

/// Relies on `BTreeMap::get`: it returns the value at the key, if any.
#[verifier::external_body]
pub fn byte_store_get(s: &ByteStore, k: u64) -> (r: Option<Vec<u8>>)
    ensures
        match r {
            Some(v) => store_map(*s).contains_key(k) && v@ == store_map(*s)[k],
            None => !store_map(*s).contains_key(k),
        },
{
    s.inner.get(&k)
}

/// Relies on `BTreeMap::remove`: it removes the entry at the key and returns
/// the value it held, if any.
#[verifier::external_body]
pub fn byte_store_remove(s: &mut ByteStore, k: u64) -> (prev: Option<Vec<u8>>)
    ensures
        store_map(*final(s)) == store_map(*old(s)).remove(k),
        match prev {
            Some(p) => store_map(*old(s)).contains_key(k) && p@ == store_map(*old(s))[k],
            None => !store_map(*old(s)).contains_key(k),
        },
{
    s.inner.remove(&k)
}

/// Relies on `BTreeMap::iter`: it yields every entry of the map exactly
/// once, in ascending key order.
#[verifier::external_body]
pub fn byte_store_entries(s: &ByteStore) -> (r: Vec<(u64, Vec<u8>)>)
    ensures
        r@.len() == store_map(*s).dom().len(),
        forall|i: int|
            0 <= i < r@.len() ==> store_map(*s).contains_key((#[trigger] r@[i]).0) && store_map(
                *s,
            )[r@[i].0] == r@[i].1@,
        forall|i: int, j: int| 0 <= i < j < r@.len() ==> r@[i].0 < r@[j].0,
        forall|k: u64|
            #[trigger] store_map(*s).contains_key(k) ==> exists|i: int|
                0 <= i < r@.len() && (#[trigger] r@[i]).0 == k,
{
    s.inner.iter().map(|e| e.into_pair()).collect()
}

/// A persisted `u64`, backed by `ic_stable_structures::Cell` on its own
/// virtual memory.
#[verifier::external_body]
pub struct CounterCell {
    inner: ic_stable_structures::Cell<
        u64,
        ic_stable_structures::memory_manager::VirtualMemory<
            ic_stable_structures::DefaultMemoryImpl,
        >,
    >,
}

/// The value a [`CounterCell`] currently holds.
pub uninterp spec fn counter_value(c: CounterCell) -> u64;

/// Relies on `MemoryManager::{init, get}`, `Cell::new` and `BTreeMap::new`:
/// the manager hands out disjoint virtual memories for distinct memory ids,
/// so the counter and the three maps returned here never touch one another's
/// storage, and each structure created on its fresh virtual memory starts
/// empty (the counter at zero). Creation writes the structures' headers
/// anew, so every run starts with empty stores; writing the eight-byte
/// counter into a fresh growable memory cannot fail.
#[verifier::external_body]
pub fn storage_new() -> (r: (CounterCell, ByteStore, ByteStore, ByteStore))
    ensures
        counter_value(r.0) == 0,
        forall|k: u64| !(#[trigger] store_map(r.1).contains_key(k)),
        forall|k: u64| !(#[trigger] store_map(r.2).contains_key(k)),
        forall|k: u64| !(#[trigger] store_map(r.3).contains_key(k)),
{
    let mm = ic_stable_structures::memory_manager::MemoryManager::init(
        ic_stable_structures::DefaultMemoryImpl::default(),
    );
    let id = ic_stable_structures::memory_manager::MemoryId::new;
    (
        CounterCell { inner: ic_stable_structures::Cell::new(mm.get(id(0)), 0) },
        ByteStore { inner: ic_stable_structures::BTreeMap::new(mm.get(id(1))) },
        ByteStore { inner: ic_stable_structures::BTreeMap::new(mm.get(id(2))) },
        ByteStore { inner: ic_stable_structures::BTreeMap::new(mm.get(id(3))) },
    )
}

/// Relies on `Cell::get`: it returns the held value.
#[verifier::external_body]
pub fn counter_get(c: &CounterCell) -> (r: u64)
    ensures
        r == counter_value(*c),
{
    *c.inner.get()
}

/// Relies on `Cell::set`: it persists and holds the new value, returning the
/// previous one. Writing the eight-byte value into an already initialized
/// growable memory cannot fail.
#[verifier::external_body]
pub fn counter_set(c: &mut CounterCell, v: u64) -> (prev: u64)
    ensures
        counter_value(*final(c)) == v,
        prev == counter_value(*old(c)),
{
    c.inner.set(v)
}

} // verus!
