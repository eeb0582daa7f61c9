//! The durable page store, as the library sees it.
//!
//! Four fixed segments of one persistent memory back the store: segment 0 the
//! book id counter, segment 1 the rental id counter, segment 2 the book
//! table, segment 3 the rental table.  Each piece of state below holds its
//! `ic_stable_structures` structure together with a handle on its segment;
//! everything the library knows of them is said by the trusted contracts in
//! this module, over the two names `counter_val` and `table_bytes`.
//!
//! Growing a segment can fail only when the storage medium itself is
//! exhausted; `ic_stable_structures` then traps, and by design that trap is
//! fatal and nowhere caught.

use vstd::prelude::*;
use ic_stable_structures::memory_manager::{MemoryId, MemoryManager, VirtualMemory};
use ic_stable_structures::{Cell, DefaultMemoryImpl, StableBTreeMap};

verus! {

/// A durable, strictly written-through 64-bit counter on one segment.
#[verifier::external_body]
pub struct DurableCounter {
    cell: Cell<u64, VirtualMemory<DefaultMemoryImpl>>,
    mem: VirtualMemory<DefaultMemoryImpl>,
}

/// An entity table: a durable ordered map from 64-bit id to one serialized
/// record, on one segment.
#[verifier::external_body]
pub struct DurableTable {
    map: StableBTreeMap<u64, Vec<u8>, VirtualMemory<DefaultMemoryImpl>>,
    mem: VirtualMemory<DefaultMemoryImpl>,
}

/// The value a counter currently holds.
pub uninterp spec fn counter_val(c: DurableCounter) -> u64;

/// The contents of an entity table.
pub uninterp spec fn table_bytes(t: DurableTable) -> Map<u64, Seq<u8>>;

/// The four segments of one fresh page store, in their fixed roles.
pub struct Backing {
    pub book_ids: DurableCounter,
    pub rental_ids: DurableCounter,
    pub books: DurableTable,
    pub rentals: DurableTable,
}

/// A backing whose counters are zero and whose tables are empty.
pub open spec fn backing_fresh(b: Backing) -> bool {
    &&& counter_val(b.book_ids) == 0
    &&& counter_val(b.rental_ids) == 0
    &&& table_bytes(b.books) == Map::<u64, Seq<u8>>::empty()
    &&& table_bytes(b.rentals) == Map::<u64, Seq<u8>>::empty()
}

/// Relies on `MemoryManager::init` and `MemoryManager::get` over a fresh
/// in-heap memory (`DefaultMemoryImpl::default()`), on `Cell::init` and on
/// `StableBTreeMap::init`: a store opened over fresh segments has zeroed
/// counters and empty tables.
#[verifier::external_body]
pub fn backing_new() -> (r: Backing)
    ensures
        backing_fresh(r),
{
    let mm = MemoryManager::init(DefaultMemoryImpl::default());
    let m0 = mm.get(MemoryId::new(0));
    let m1 = mm.get(MemoryId::new(1));
    let m2 = mm.get(MemoryId::new(2));
    let m3 = mm.get(MemoryId::new(3));
    let book_ids = DurableCounter { cell: Cell::init(m0.clone(), 0), mem: m0 };
    let rental_ids = DurableCounter { cell: Cell::init(m1.clone(), 0), mem: m1 };
    let books = DurableTable { map: StableBTreeMap::init(m2.clone()), mem: m2 };
    let rentals = DurableTable { map: StableBTreeMap::init(m3.clone()), mem: m3 };
    Backing { book_ids, rental_ids, books, rentals }
}

/// Relies on `Cell::init` reading the persisted value back from the segment,
/// and on `Cell::set` having persisted it before returning: reattaching to a
/// counter's segment yields the value it last held.
#[verifier::external_body]
pub fn counter_reopen(c: DurableCounter) -> (r: DurableCounter)
    ensures
        counter_val(r) == counter_val(c),
{
    let mem = c.mem;
    DurableCounter { cell: Cell::init(mem.clone(), 0), mem }
}

/// Relies on `StableBTreeMap::init` reading the persisted tree back from the
/// segment: reattaching to a table's segment yields the entries it last held.
#[verifier::external_body]
pub fn table_reopen(t: DurableTable) -> (r: DurableTable)
    ensures
        table_bytes(r) == table_bytes(t),
{
    let mem = t.mem;
    DurableTable { map: StableBTreeMap::init(mem.clone()), mem }
}

/// Relies on `Cell::get`: it returns the current value.
#[verifier::external_body]
pub fn counter_get(c: &DurableCounter) -> (r: u64)
    ensures
        r == counter_val(*c),
{
    *c.cell.get()
}

/// Relies on `Cell::set`: it persists the new value before returning and
/// hands back the previous one.
#[verifier::external_body]
pub fn counter_set(c: &mut DurableCounter, v: u64) -> (prev: u64)
    ensures
        prev == counter_val(*old(c)),
        counter_val(*final(c)) == v,
{
    c.cell.set(v)
}

/// Relies on `StableBTreeMap::get`: it returns the value stored under the
/// key, or absence.
#[verifier::external_body]
pub fn table_get(t: &DurableTable, id: u64) -> (r: Option<Vec<u8>>)
    ensures
        match r {
            Some(v) => table_bytes(*t).dom().contains(id) && v@ == table_bytes(*t)[id],
            None => !table_bytes(*t).dom().contains(id),
        },
{
    t.map.get(&id)
}

/// Relies on `StableBTreeMap::insert`: it adds or overwrites the entry,
/// durably, and hands back the previous value if one was there.
#[verifier::external_body]
pub fn table_insert(t: &mut DurableTable, id: u64, v: Vec<u8>) -> (prev: Option<Vec<u8>>)
    ensures
        table_bytes(*final(t)) == table_bytes(*old(t)).insert(id, v@),
        match prev {
            Some(p) => table_bytes(*old(t)).dom().contains(id) && p@ == table_bytes(*old(t))[id],
            None => !table_bytes(*old(t)).dom().contains(id),
        },
{
    t.map.insert(id, v)
}

/// Relies on `StableBTreeMap::remove`: it removes the entry, durably, and
/// hands back the value it held, or absence.
#[verifier::external_body]
pub fn table_remove(t: &mut DurableTable, id: u64) -> (prev: Option<Vec<u8>>)
    ensures
        table_bytes(*final(t)) == table_bytes(*old(t)).remove(id),
        match prev {
            Some(p) => table_bytes(*old(t)).dom().contains(id) && p@ == table_bytes(*old(t))[id],
            None => !table_bytes(*old(t)).dom().contains(id),
        },
{
    t.map.remove(&id)
}

} // verus!
