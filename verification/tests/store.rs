use ic_stable_structures::memory_manager::{MemoryId, MemoryManager};
use ic_stable_structures::{Cell, DefaultMemoryImpl, StableBTreeMap};
use icp_rust_boilerplate_backend::store::{Counter, RecordStore, MAX_RECORD_SIZE};

fn counter_in(memory: &DefaultMemoryImpl, region: u8) -> Counter {
    let regions = MemoryManager::init(memory.clone());
    Counter {
        cell: Cell::init(regions.get(MemoryId::new(region)), 0).expect("a counter cell"),
    }
}

fn store_in(memory: &DefaultMemoryImpl, region: u8) -> RecordStore {
    let regions = MemoryManager::init(memory.clone());
    RecordStore {
        map: StableBTreeMap::init(regions.get(MemoryId::new(region))),
    }
}

#[test]
fn counter_starts_at_zero_and_counts_up() {
    let memory = DefaultMemoryImpl::default();
    let mut counter = counter_in(&memory, 0);
    assert_eq!(counter.value(), 0);
    assert_eq!(counter.next(), Some(0));
    assert_eq!(counter.next(), Some(1));
    assert_eq!(counter.next(), Some(2));
    assert_eq!(counter.value(), 3);
}

#[test]
fn counter_resumes_after_restart() {
    let memory = DefaultMemoryImpl::default();
    {
        let mut counter = counter_in(&memory, 0);
        assert_eq!(counter.next(), Some(0));
        assert_eq!(counter.next(), Some(1));
    }
    let mut counter = counter_in(&memory, 0);
    assert_eq!(counter.value(), 2);
    assert_eq!(counter.next(), Some(2));
}

#[test]
fn counter_stops_at_the_last_value() {
    let memory = DefaultMemoryImpl::default();
    let regions = MemoryManager::init(memory);
    let mut counter = Counter {
        cell: Cell::init(regions.get(MemoryId::new(0)), u64::MAX - 1).expect("a counter cell"),
    };
    assert_eq!(counter.next(), Some(u64::MAX - 1));
    assert_eq!(counter.next(), None);
    assert_eq!(counter.value(), u64::MAX);
}

#[test]
fn store_keeps_records_in_key_order() {
    let memory = DefaultMemoryImpl::default();
    let mut store = store_in(&memory, 1);
    assert_eq!(store.len(), 0);
    assert_eq!(store.get(7), None);
    store.insert(7, &vec![1, 2, 3]);
    store.insert(2, &vec![]);
    store.insert(9, &vec![0; MAX_RECORD_SIZE]);
    store.insert(7, &vec![4]);
    assert_eq!(store.len(), 3);
    assert_eq!(store.get(7), Some(vec![4]));
    assert_eq!(store.get(2), Some(vec![]));
    assert_eq!(
        store.iterate(),
        vec![(2, vec![]), (7, vec![4]), (9, vec![0; MAX_RECORD_SIZE])]
    );
}

#[test]
fn store_survives_restart() {
    let memory = DefaultMemoryImpl::default();
    {
        let mut store = store_in(&memory, 1);
        store.insert(5, &vec![9, 9]);
    }
    let store = store_in(&memory, 1);
    assert_eq!(store.get(5), Some(vec![9, 9]));
    assert_eq!(store.len(), 1);
}
