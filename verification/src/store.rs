//! The two durable primitives: a counter cell that mints identifiers and an
//! ordered map from identifier to a bounded record of bytes.
//!
//! Both live in regions of stable memory that the caller attaches at start-up
//! and hands over inside [`Counter`] and [`RecordStore`]. What the two hold is
//! modelled by [`counter_value`] and [`store_records`]; the functions at the
//! bottom of this module that call into `ic_stable_structures` are believed,
//! not proved, and each says which call it makes.
//!
//! Two things are taken for granted, as they are of the heap: that each region
//! belongs to the one counter or map that was attached to it, and that stable
//! memory is there when a map has to grow. A map that cannot grow stops the
//! program.

use ic_stable_structures::memory_manager::VirtualMemory;
use ic_stable_structures::storable::Blob;
use ic_stable_structures::{Cell, DefaultMemoryImpl, StableBTreeMap};
use vstd::prelude::*;

verus! {

/// The largest number of bytes one stored record may have.
pub const MAX_RECORD_SIZE: usize = 1024;

/// The region of stable memory that backs one counter or one map.
pub type Region = VirtualMemory<DefaultMemoryImpl>;

/// A durable `u64` from which identifiers are minted.
///
/// The cell is attached by the caller, who owns the choice of region.
#[verifier::external_body]
pub struct Counter {
    pub cell: Cell<u64, Region>,
}

/// A durable map, ordered by key, from identifier to record.
///
/// A record is a run of at most [`MAX_RECORD_SIZE`] bytes. The map is attached
/// by the caller, who owns the choice of region.
#[verifier::external_body]
pub struct RecordStore {
    pub map: StableBTreeMap<u64, Blob<1024>, Region>,
}

/// The value that the counter's cell holds.
pub uninterp spec fn counter_value(counter: Counter) -> u64;

/// The records that the store's map holds, each as the bytes under its key.
pub uninterp spec fn store_records(store: RecordStore) -> Map<u64, Seq<u8>>;

impl View for Counter {
    type V = u64;

    open spec fn view(&self) -> u64 {
        counter_value(*self)
    }
}

impl View for RecordStore {
    type V = Map<u64, Seq<u8>>;

    open spec fn view(&self) -> Map<u64, Seq<u8>> {
        store_records(*self)
    }
}

/// What minting does to a counter that holds `value`: the identifier handed
/// out, if one is left, and the value the counter holds afterwards.
pub open spec fn mint(value: u64) -> (Option<u64>, u64) {
    if value < u64::MAX {
        (Some(value), (value + 1) as u64)
    } else {
        (None, value)
    }
}

/// The value of a counter that started at `start` after `count` mints.
pub open spec fn value_after(start: u64, count: nat) -> u64
    decreases count,
{
    if count == 0 {
        start
    } else {
        mint(value_after(start, (count - 1) as nat)).1
    }
}

/// The identifier that mint number `turn` hands out, counting from zero, on a
/// counter that started at `start`.
pub open spec fn minted_at(start: u64, turn: nat) -> Option<u64> {
    mint(value_after(start, turn)).0
}

/// The entries of `records` in ascending order of key, each exactly once.
pub open spec fn is_listing(entries: Seq<(u64, Seq<u8>)>, records: Map<u64, Seq<u8>>) -> bool {
    &&& forall|i: int, j: int|
        0 <= i < j < entries.len() ==> (#[trigger] entries[i]).0 < (#[trigger] entries[j]).0
    &&& forall|i: int|
        0 <= i < entries.len() ==> records.contains_key((#[trigger] entries[i]).0)
            && records[entries[i].0] == entries[i].1
    &&& forall|key: u64| #[trigger]
        records.contains_key(key) ==> exists|i: int|
            0 <= i < entries.len() && (#[trigger] entries[i]).0 == key
}

/// `records` has finitely many entries, and `count` is their number.
pub open spec fn is_count(count: u64, records: Map<u64, Seq<u8>>) -> bool {
    records.dom().finite() && records.dom().len() == count
}

/// The keys and byte views of what [`RecordStore::iterate`] returns.
pub open spec fn entry_views(entries: Seq<(u64, Vec<u8>)>) -> Seq<(u64, Seq<u8>)> {
    entries.map_values(|entry: (u64, Vec<u8>)| (entry.0, entry.1@))
}

impl Counter {
    /// The value the counter holds: the next identifier it will hand out.
    pub fn value(&self) -> (value: u64)
        ensures
            value == self@,
    {
        cell_get(self)
    }

    /// Mints an identifier: hands out the value the counter holds and durably
    /// moves the counter one up. Once the counter has reached `u64::MAX`
    /// nothing is left to hand out, and the counter stays where it is.
    pub fn next(&mut self) -> (minted: Option<u64>)
        ensures
            (minted, final(self)@) == mint(old(self)@),
    {
        let value = cell_get(self);
        if value == u64::MAX {
            return None;
        }
        cell_set(self, value + 1)
    }
}

impl RecordStore {
    /// The record under `id`, if there is one.
    pub fn get(&self, id: u64) -> (found: Option<Vec<u8>>)
        ensures
            match found {
                Some(record) => self@.contains_key(id) && self@[id] == record@,
                None => !self@.contains_key(id),
            },
    {
        map_get(self, id)
    }

    /// Puts `record` under `id`, in place of whatever was there.
    pub fn insert(&mut self, id: u64, record: &Vec<u8>)
        requires
            record@.len() <= MAX_RECORD_SIZE,
        ensures
            final(self)@ == old(self)@.insert(id, record@),
    {
        map_insert(self, id, record)
    }

    /// The number of records.
    pub fn len(&self) -> (count: u64)
        ensures
            is_count(count, self@),
    {
        map_len(self)
    }

    /// Every record with its key, in ascending order of key.
    pub fn iterate(&self) -> (entries: Vec<(u64, Vec<u8>)>)
        ensures
            is_listing(entry_views(entries@), self@),
    {
        map_entries(self)
    }
}

/// Identifiers come out in strictly increasing order: of two mints on one
/// counter, the later one hands out the larger identifier. So none is ever
/// handed out twice.
pub proof fn lemma_minted_ids_increase(start: u64, earlier: nat, later: nat)
    requires
        earlier < later,
        minted_at(start, later) is Some,
    ensures
        minted_at(start, earlier) is Some,
        minted_at(start, earlier)->0 < minted_at(start, later)->0,
{
    lemma_value_after(start, earlier);
    lemma_value_after(start, later);
}

/// A counter moves up by one with every mint until it reaches `u64::MAX`.
pub proof fn lemma_value_after(start: u64, count: nat)
    ensures
        value_after(start, count) == if start + count < u64::MAX {
            start + count
        } else {
            u64::MAX as int
        },
    decreases count,
{
    if count > 0 {
        lemma_value_after(start, (count - 1) as nat);
    }
}

/// Calls `Cell::get`, which hands out a reference to the value that the cell
/// holds.
#[verifier::external_body]
fn cell_get(counter: &Counter) -> (value: u64)
    ensures
        value == counter_value(*counter),
{
    *counter.cell.get()
}

/// Calls `Cell::set`, which writes `value` to the cell's region, keeps it as
/// the cell's value and returns the value held before.
///
/// `Cell::set` fails only when the region must grow and cannot. A cell that
/// exists has its header and value in the first page of its region, and a
/// `u64` takes eight bytes of it, so this call never asks the region to grow:
/// the contract claims that it succeeds.
#[verifier::external_body]
fn cell_set(counter: &mut Counter, value: u64) -> (previous: Option<u64>)
    ensures
        previous == Some(counter_value(*old(counter))),
        counter_value(*final(counter)) == value,
{
    counter.cell.set(value).ok()
}

/// Calls `StableBTreeMap::get`, which returns the value under `key` if the map
/// has the key; the value's bytes are copied out of its `Blob`.
#[verifier::external_body]
fn map_get(store: &RecordStore, key: u64) -> (found: Option<Vec<u8>>)
    ensures
        match found {
            Some(record) => store_records(*store).contains_key(key) && store_records(
                *store,
            )[key] == record@,
            None => !store_records(*store).contains_key(key),
        },
{
    store.map.get(&key).map(|blob| blob.as_slice().to_vec())
}

/// Calls `StableBTreeMap::insert`, which puts the value under `key` and drops
/// the value that was there, leaving every other entry as it was. The bytes go
/// in as a `Blob`, which takes any run of at most 1024 bytes.
#[verifier::external_body]
fn map_insert(store: &mut RecordStore, key: u64, record: &Vec<u8>)
    requires
        record@.len() <= MAX_RECORD_SIZE,
    ensures
        store_records(*final(store)) == store_records(*old(store)).insert(key, record@),
{
    if let Ok(blob) = Blob::try_from(record.as_slice()) {
        store.map.insert(key, blob);
    }
}

/// Calls `StableBTreeMap::len`, the number of entries in the map. A map has
/// finitely many.
#[verifier::external_body]
fn map_len(store: &RecordStore) -> (count: u64)
    ensures
        is_count(count, store_records(*store)),
{
    store.map.len()
}

/// Calls `StableBTreeMap::iter`, which walks the entries of the map in
/// ascending order of key, each entry once; the bytes of each value are copied
/// out of its `Blob`.
#[verifier::external_body]
fn map_entries(store: &RecordStore) -> (entries: Vec<(u64, Vec<u8>)>)
    ensures
        is_listing(entry_views(entries@), store_records(*store)),
{
    store.map.iter().map(|(key, blob)| (key, blob.as_slice().to_vec())).collect()
}

} // verus!
