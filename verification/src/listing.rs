//! The order in which a scan of a store meets its records: ascending by
//! key. [`in_key_order`] writes that order down for any map keyed by `u64`,
//! and the lemmas tie it to what [`RecordStore::iterate`] hands out.
//!
//! [`RecordStore::iterate`]: crate::store::RecordStore::iterate

use crate::store::is_listing;
use vstd::prelude::*;

verus! {

/// The number of keys there are: a bound above every `u64`.
pub open spec fn key_count() -> nat {
    0x1_0000_0000_0000_0000
}

/// The items of `items` whose key is below `bound`, in ascending order of
/// key.
pub open spec fn ascending<T>(items: Map<u64, T>, bound: nat) -> Seq<T>
    decreases bound,
{
    if bound == 0 {
        Seq::empty()
    } else {
        let below = ascending(items, (bound - 1) as nat);
        if bound <= key_count() && items.contains_key((bound - 1) as u64) {
            below.push(items[(bound - 1) as u64])
        } else {
            below
        }
    }
}

/// All the items of `items`, in ascending order of key.
pub open spec fn in_key_order<T>(items: Map<u64, T>) -> Seq<T> {
    ascending(items, key_count())
}

/// Keys that `items` does not have add nothing to the order.
pub proof fn lemma_ascending_gap<T>(items: Map<u64, T>, from: nat, to: nat)
    requires
        from <= to,
        forall|key: u64| from <= key < to ==> !items.contains_key(key),
    ensures
        ascending(items, to) == ascending(items, from),
    decreases to - from,
{
    if from < to {
        lemma_ascending_gap(items, from, (to - 1) as nat);
    }
}

/// A key that `items` has adds its item at the end of what comes before.
pub proof fn lemma_ascending_step<T>(items: Map<u64, T>, key: u64)
    ensures
        ascending(items, (key + 1) as nat) == if items.contains_key(key) {
            ascending(items, key as nat).push(items[key])
        } else {
            ascending(items, key as nat)
        },
{
}

/// The bound below which a scan has seen every key once it has dealt with
/// the first `count` entries of a listing: zero at the start, and then one
/// above the key of the entry it dealt with last.
pub open spec fn passed(entries: Seq<(u64, Seq<u8>)>, count: int) -> nat {
    if count <= 0 {
        0
    } else {
        (entries[count - 1].0 + 1) as nat
    }
}

/// Between two neighbours of a listing, before its first entry and after its
/// last, the records have no key.
pub proof fn lemma_listing_gap(
    entries: Seq<(u64, Seq<u8>)>,
    records: Map<u64, Seq<u8>>,
    at: int,
    key: u64,
)
    requires
        is_listing(entries, records),
        0 <= at <= entries.len(),
        at > 0 ==> entries[at - 1].0 < key,
        at < entries.len() ==> key < entries[at].0,
    ensures
        !records.contains_key(key),
{
    if records.contains_key(key) {
        let found = choose|i: int| 0 <= i < entries.len() && (#[trigger] entries[i]).0 == key;
        if found < at {
            if found < at - 1 {
                assert(entries[found].0 < entries[at - 1].0);
            }
        } else {
            if found > at {
                assert(entries[at].0 < entries[found].0);
            }
        }
    }
}

/// One step of a scan. The entry that the scan comes to is a record of the
/// store, under its key; and of `items`, which are filed under keys of the
/// store, the step adds the item under that key, if there is one, to those
/// that the scan has passed, and no other.
pub proof fn lemma_scan_step<T>(
    entries: Seq<(u64, Seq<u8>)>,
    records: Map<u64, Seq<u8>>,
    items: Map<u64, T>,
    at: int,
)
    requires
        is_listing(entries, records),
        forall|key: u64| items.contains_key(key) ==> records.contains_key(key),
        0 <= at < entries.len(),
    ensures
        records.contains_key(entries[at].0),
        records[entries[at].0] == entries[at].1,
        ascending(items, passed(entries, at + 1)) == if items.contains_key(entries[at].0) {
            ascending(items, passed(entries, at)).push(items[entries[at].0])
        } else {
            ascending(items, passed(entries, at))
        },
{
    let key = entries[at].0;
    if at > 0 {
        assert(entries[at - 1].0 < entries[at].0);
    }
    assert forall|missing: u64| passed(entries, at) <= missing < key implies !items.contains_key(
        missing,
    ) by {
        lemma_listing_gap(entries, records, at, missing);
    }
    lemma_ascending_gap(items, passed(entries, at), key as nat);
    lemma_ascending_step(items, key);
}

/// The end of a scan. Once the scan has dealt with every entry, it has
/// passed all the `items`.
pub proof fn lemma_scan_end<T>(
    entries: Seq<(u64, Seq<u8>)>,
    records: Map<u64, Seq<u8>>,
    items: Map<u64, T>,
)
    requires
        is_listing(entries, records),
        forall|key: u64| items.contains_key(key) ==> records.contains_key(key),
    ensures
        ascending(items, passed(entries, entries.len() as int)) == in_key_order(items),
{
    let seen = passed(entries, entries.len() as int);
    assert forall|missing: u64| seen <= missing < key_count() implies !items.contains_key(
        missing,
    ) by {
        lemma_listing_gap(entries, records, entries.len() as int, missing);
    }
    lemma_ascending_gap(items, seen, key_count());
}

} // verus!
