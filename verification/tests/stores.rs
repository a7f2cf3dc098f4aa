use raft::error::RaftError;
use raft::inmem_store::{InmemCommitTrackingStore, InmemStore};
use raft::log::{CommitTrackingLogStore, Log, LogStore, LogType};
use raft::log_cache::LogCache;
use raft::stable::StableStore;

fn log_at(index: u64) -> Log {
    Log {
        index,
        term: 1,
        log_type: LogType::Command,
        data: format!("log-{}", index).into_bytes(),
        ..Default::default()
    }
}

#[test]
fn log_store_roundtrip() {
    let mut store = InmemStore::new();
    assert_eq!(store.first_index().unwrap(), 0);
    assert_eq!(store.last_index().unwrap(), 0);

    store.store_log(&log_at(1)).unwrap();
    store.store_logs(&vec![log_at(2), log_at(3)]).unwrap();

    assert_eq!(store.first_index().unwrap(), 1);
    assert_eq!(store.last_index().unwrap(), 3);

    let got = store.get_log(2).unwrap();
    assert_eq!(got.data, b"log-2");
    assert!(matches!(
        store.get_log(42).unwrap_err(),
        RaftError::LogNotFound
    ));
}

#[test]
fn delete_range_updates_bounds() {
    let mut store = InmemStore::new();
    store
        .store_logs(&(1..=10).map(log_at).collect::<Vec<_>>())
        .unwrap();

    // Delete from the middle: bounds unchanged.
    store.delete_range(3, 5).unwrap();
    assert_eq!(store.first_index().unwrap(), 1);
    assert_eq!(store.last_index().unwrap(), 10);
    assert!(store.get_log(4).is_err());

    // Delete a prefix: low bound moves up.
    store.delete_range(1, 2).unwrap();
    assert_eq!(store.first_index().unwrap(), 3);

    // Delete everything: bounds reset.
    store.delete_range(3, 10).unwrap();
    assert_eq!(store.first_index().unwrap(), 0);
    assert_eq!(store.last_index().unwrap(), 0);
}

#[test]
fn delete_range_trims_the_tail() {
    let mut store = InmemStore::new();
    store
        .store_logs(&(5..=9).map(log_at).collect::<Vec<_>>())
        .unwrap();
    store.delete_range(8, 20).unwrap();
    assert_eq!(store.first_index().unwrap(), 5);
    assert_eq!(store.last_index().unwrap(), 7);
    // A range that is upside down deletes nothing.
    store.delete_range(7, 6).unwrap();
    assert!(store.get_log(6).is_ok());
    assert!(store.get_log(7).is_ok());
}

#[test]
fn a_later_entry_replaces_an_earlier_one() {
    let mut store = InmemStore::default();
    store.store_log(&log_at(1)).unwrap();
    let mut other = log_at(1);
    other.term = 2;
    other.data = b"other".to_vec();
    store.store_logs(&vec![log_at(1), other]).unwrap();
    let got = store.get_log(1).unwrap();
    assert_eq!(got.term, 2);
    assert_eq!(got.data, b"other");
}

#[test]
fn stable_store_roundtrip() {
    let mut store = InmemStore::new();
    assert_eq!(store.get(b"missing").unwrap(), None);
    assert_eq!(store.get_u64(b"missing").unwrap(), None);

    store.set(b"key", b"value").unwrap();
    assert_eq!(store.get(b"key").unwrap().as_deref(), Some(&b"value"[..]));

    store.set_u64(b"num", 42).unwrap();
    assert_eq!(store.get_u64(b"num").unwrap(), Some(42));

    // A write replaces what the key held, and nothing else.
    store.set(b"key", b"again").unwrap();
    store.set_u64(b"other", 7).unwrap();
    assert_eq!(store.get(b"key").unwrap().as_deref(), Some(&b"again"[..]));
    assert_eq!(store.get_u64(b"num").unwrap(), Some(42));
}

#[test]
fn commit_tracking() {
    let mut store = InmemCommitTrackingStore::new();
    assert_eq!(store.get_commit_index().unwrap(), 0);
    store.stage_commit_index(17).unwrap();
    assert_eq!(store.get_commit_index().unwrap(), 17);

    // Delegates log storage to the inner store.
    store.store_log(&log_at(1)).unwrap();
    assert_eq!(store.last_index().unwrap(), 1);
}

#[test]
fn log_cache_basic() {
    let mut store = InmemStore::new();
    // Insert 32 logs into the store directly. Only the last 16 would fit in
    // the cache.
    for i in 1..=32 {
        store.store_log(&log_at(i)).unwrap();
    }
    let cache = LogCache::new(16, store).expect("cache");
    assert_eq!(cache.capacity(), 16);
    assert_eq!(cache.first_index().unwrap(), 1);
    assert_eq!(cache.last_index().unwrap(), 32);

    // Index 1 is not in the cache, but the underlying store has it.
    assert_eq!(cache.get_log(1).unwrap().index, 1);

    for i in 17..=32 {
        let log = cache.get_log(i).unwrap();
        assert_eq!(log.index, i);
        assert_eq!(log.data, format!("log-{}", i).into_bytes());
    }
}

#[test]
fn log_cache_store_propagates() {
    let mut cache = LogCache::new(4, InmemStore::new()).expect("cache");

    cache.store_log(&log_at(1)).unwrap();
    cache.store_logs(&vec![log_at(2), log_at(3)]).unwrap();

    for i in 1..=3 {
        assert_eq!(cache.get_log(i).unwrap().index, i);
    }
    assert_eq!(cache.last_index().unwrap(), 3);
}

#[test]
fn log_cache_delete_range_invalidates() {
    let mut cache = LogCache::new(8, InmemStore::new()).expect("cache");

    cache
        .store_logs(&(1..=10).map(log_at).collect::<Vec<_>>())
        .unwrap();
    assert_eq!(cache.get_log(5).unwrap().index, 5);

    cache.delete_range(3, 7).unwrap();
    // The cache is cleared, but the underlying store still has 8..=10.
    assert!(cache.get_log(5).is_err());
    assert_eq!(cache.get_log(10).unwrap().index, 10);
}

#[test]
fn log_cache_zero_capacity_rejected() {
    let err = LogCache::new(0, InmemStore::new())
        .err()
        .expect("expected error for zero capacity");
    match err {
        RaftError::Other(msg) => assert!(msg.contains("positive")),
        _ => panic!("expected Other error"),
    }
}

/// A store that fails, after part of the work, on the entries past a limit.
struct Flaky {
    inner: InmemStore,
    limit: u64,
}

impl LogStore for Flaky {
    fn first_index(&self) -> raft::error::Result<u64> {
        self.inner.first_index()
    }

    fn last_index(&self) -> raft::error::Result<u64> {
        self.inner.last_index()
    }

    fn get_log(&self, index: u64) -> raft::error::Result<Log> {
        self.inner.get_log(index)
    }

    fn store_log(&mut self, log: &Log) -> raft::error::Result<()> {
        if log.index > self.limit {
            return Err(RaftError::Other("disk full".into()));
        }
        self.inner.store_log(log)
    }

    fn store_logs(&mut self, logs: &Vec<Log>) -> raft::error::Result<()> {
        for log in logs {
            self.store_log(log)?;
        }
        Ok(())
    }

    fn delete_range(&mut self, min: u64, max: u64) -> raft::error::Result<()> {
        self.inner.delete_range(min, max)
    }
}

#[test]
fn log_cache_keeps_its_entries_past_a_failed_write() {
    let store = Flaky {
        inner: InmemStore::new(),
        limit: 3,
    };
    let mut cache = LogCache::new(8, store).unwrap();
    cache.store_logs(&vec![log_at(1), log_at(2)]).unwrap();
    let mut newer = log_at(2);
    newer.term = 9;
    assert!(cache.store_logs(&vec![newer, log_at(4)]).is_err());
    // The write got as far as the second entry; the ring buffer took up none
    // of it and holds what it held.
    assert_eq!(cache.get_log(2).unwrap().term, 1);
    assert_eq!(cache.get_log(1).unwrap().term, 1);
    assert!(cache.get_log(4).is_err());
    // An emptied ring buffer leaves the reads to the store.
    cache.delete_range(1, 1).unwrap();
    assert_eq!(cache.get_log(2).unwrap().term, 9);
    assert!(cache.get_log(1).is_err());
}
