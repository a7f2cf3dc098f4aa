use raft::config::SNAPSHOT_VERSION_MAX;
use raft::configuration::{Configuration, Server, ServerSuffrage};
use raft::crc64::Crc64;
use raft::error::RaftError;
use raft::file_snapshot::{
    check_contents, is_snapshot, tmp_name, FileSnapshotMeta, FileSnapshotStore,
};
use raft::inmem_snapshot::{DiscardSnapshotStore, InmemSnapshotStore};
use raft::snapshot::{copy_to_sink, snapshot_name, snapshot_name_at, SnapshotSink, SnapshotStore};
use std::cmp::Ordering;

fn test_configuration() -> Configuration {
    Configuration {
        servers: vec![Server {
            suffrage: ServerSuffrage::Voter,
            id: "a".into(),
            address: "addr-a".into(),
        }],
    }
}

#[test]
fn inmem_snapshot_create_write_list_open() {
    let mut store = InmemSnapshotStore::new();
    let mut sink = store
        .create(SNAPSHOT_VERSION_MAX, 10, 3, &test_configuration(), 2)
        .unwrap();

    let id = sink.id();
    store.write(&mut sink, b"first ").unwrap();
    store.write(&mut sink, b"second").unwrap();
    store.close(&mut sink).unwrap();

    let snaps = store.list().unwrap();
    assert_eq!(snaps.len(), 1);
    assert_eq!(snaps[0].id, id);
    assert_eq!(snaps[0].index, 10);
    assert_eq!(snaps[0].term, 3);
    assert_eq!(snaps[0].configuration_index, 2);
    assert_eq!(snaps[0].size, 12);

    let (meta, reader) = store.open(&id).unwrap();
    assert_eq!(meta.index, 10);
    assert_eq!(String::from_utf8(reader).unwrap(), "first second");
}

#[test]
fn open_snapshot_twice() {
    let mut store = InmemSnapshotStore::new();
    let mut sink = store
        .create(SNAPSHOT_VERSION_MAX, 10, 3, &test_configuration(), 2)
        .unwrap();
    store.write(&mut sink, b"data").unwrap();
    store.close(&mut sink).unwrap();
    let id = sink.id();

    for _ in 0..2 {
        let (_, reader) = store.open(&id).unwrap();
        assert_eq!(String::from_utf8(reader).unwrap(), "data");
    }
}

#[test]
fn create_rejects_unsupported_version() {
    let mut store = InmemSnapshotStore::new();
    let result = store.create(0, 10, 3, &test_configuration(), 2);
    assert!(result.is_err());
    match result.err().unwrap() {
        RaftError::Snapshot(text) => assert_eq!(text, "unsupported snapshot version 0"),
        other => panic!("unexpected error: {:?}", other),
    }
}

#[test]
fn create_replaces_latest() {
    let mut store = InmemSnapshotStore::new();
    let mut first = store
        .create(SNAPSHOT_VERSION_MAX, 10, 3, &test_configuration(), 2)
        .unwrap();
    store.write(&mut first, b"old").unwrap();
    store.close(&mut first).unwrap();

    let mut second = store
        .create(SNAPSHOT_VERSION_MAX, 20, 4, &test_configuration(), 2)
        .unwrap();
    store.write(&mut second, b"new").unwrap();
    store.close(&mut second).unwrap();

    let snaps = store.list().unwrap();
    assert_eq!(snaps.len(), 1);
    assert_eq!(snaps[0].index, 20);
    assert!(store.open(&first.id()).is_err());
}

#[test]
fn a_replaced_snapshot_is_no_longer_written() {
    let mut store = InmemSnapshotStore::default();
    let mut first = store
        .create(SNAPSHOT_VERSION_MAX, 10, 3, &test_configuration(), 2)
        .unwrap();
    let mut second = store
        .create(SNAPSHOT_VERSION_MAX, 20, 4, &test_configuration(), 2)
        .unwrap();
    store.write(&mut second, b"new").unwrap();
    assert_eq!(store.write(&mut first, b"late").unwrap(), 4);
    store.cancel(&mut first).unwrap();
    let (_, contents) = store.open(&second.id()).unwrap();
    assert_eq!(contents, b"new");
    // Cancelling the snapshot that is held discards it.
    store.cancel(&mut second).unwrap();
    assert!(store.list().unwrap().is_empty());
}

#[test]
fn discard_store() {
    let mut store = DiscardSnapshotStore::new();
    let mut sink = store
        .create(SNAPSHOT_VERSION_MAX, 10, 3, &test_configuration(), 2)
        .unwrap();
    assert_eq!(sink.id(), "discard");
    assert_eq!(store.write(&mut sink, b"abc").unwrap(), 3);
    store.close(&mut sink).unwrap();

    assert!(store.list().unwrap().is_empty());
    assert!(store.open("discard").is_err());
}

#[test]
fn copying_goes_chunk_by_chunk() {
    let mut store = InmemSnapshotStore::new();
    let mut sink = store
        .create(SNAPSHOT_VERSION_MAX, 1, 1, &test_configuration(), 1)
        .unwrap();
    let data: Vec<u8> = (0..200_000u32).map(|i| (i % 251) as u8).collect();
    assert_eq!(copy_to_sink(&mut store, &mut sink, &data).unwrap(), 200_000);
    let (meta, contents) = store.open(&sink.id()).unwrap();
    assert_eq!(meta.size, 200_000);
    assert_eq!(contents, data);
}

#[test]
fn snapshot_names_tell_term_index_and_time() {
    assert_eq!(snapshot_name_at(3, 10, 1234), "3-10-1234");
    let name = snapshot_name(3, 10);
    let millis: u128 = name.strip_prefix("3-10-").unwrap().parse().unwrap();
    // Some time in this century.
    assert!(millis > 1_500_000_000_000);
    assert!(millis < 5_000_000_000_000);
}

fn meta(id: &str, term: u64, index: u64) -> FileSnapshotMeta {
    FileSnapshotMeta {
        version: 1,
        id: id.into(),
        index,
        term,
        configuration: test_configuration(),
        configuration_index: 1,
        size: 0,
        crc: None,
    }
}

#[test]
fn snapshots_are_ordered_by_age() {
    type Store = FileSnapshotStore<String>;
    assert_eq!(Store::cmp(&meta("x", 1, 9), &meta("a", 2, 1)), Ordering::Less);
    assert_eq!(Store::cmp(&meta("x", 2, 9), &meta("a", 2, 1)), Ordering::Greater);
    assert_eq!(Store::cmp(&meta("a", 2, 1), &meta("b", 2, 1)), Ordering::Less);
    assert_eq!(Store::cmp(&meta("ab", 2, 1), &meta("a", 2, 1)), Ordering::Greater);
    assert_eq!(Store::cmp(&meta("a", 2, 1), &meta("a", 2, 1)), Ordering::Equal);
    assert_eq!(Store::cmp(&meta("Ä", 2, 1), &meta("z", 2, 1)), Ordering::Greater);
    let sorted = Store::sorted(vec![
        meta("1-10-5", 1, 10),
        meta("2-4-9", 2, 4),
        meta("1-30-7", 1, 30),
        meta("1-20-6", 1, 20),
    ]);
    let ids: Vec<&str> = sorted.iter().map(|m| m.id.as_str()).collect();
    assert_eq!(ids, vec!["2-4-9", "1-30-7", "1-20-6", "1-10-5"]);
}

/// A directory of finished snapshots, as a store on disk keeps it.
struct Disk {
    store: FileSnapshotStore<String>,
    dirs: Vec<(FileSnapshotMeta, Vec<u8>)>,
}

fn copy(m: &FileSnapshotMeta) -> FileSnapshotMeta {
    FileSnapshotMeta {
        version: m.version,
        id: m.id.clone(),
        index: m.index,
        term: m.term,
        configuration: m.configuration.clone(),
        configuration_index: m.configuration_index,
        size: m.size,
        crc: m.crc.clone(),
    }
}

impl Disk {
    fn new(retain: usize) -> Disk {
        Disk {
            store: FileSnapshotStore::new("base/snapshots".to_string(), retain).unwrap(),
            dirs: Vec::new(),
        }
    }

    fn metas(&self) -> Vec<FileSnapshotMeta> {
        self.dirs.iter().map(|(m, _)| copy(m)).collect()
    }

    fn take(&mut self, index: u64, term: u64, conf_index: u64, pieces: &[&[u8]]) -> String {
        let mut sink = self
            .store
            .begin(1, index, term, &test_configuration(), conf_index)
            .unwrap();
        let mut contents = Vec::new();
        let mut check = Crc64::new();
        for piece in pieces {
            contents.extend_from_slice(piece);
            check.update(piece);
        }
        assert!(sink.end());
        sink.seal(contents.len() as u64, &check);
        let id = sink.id();
        self.dirs.push((sink.meta, contents));
        let reaped = self.store.reaped(self.metas());
        self.dirs.retain(|(m, _)| !reaped.contains(&m.id));
        id
    }

    fn open(&self, id: &str) -> Result<Vec<u8>, RaftError> {
        let (m, contents) = self.dirs.iter().find(|(m, _)| m.id == id).unwrap();
        let mut check = Crc64::new();
        check.update(contents);
        check_contents(m, &check)?;
        Ok(contents.clone())
    }
}

#[test]
fn file_snapshot_create_write_list_open() {
    let mut disk = Disk::new(3);
    let id = disk.take(10, 3, 2, &[b"first ", b"second"]);

    let snaps = disk.store.listed(disk.metas());
    assert_eq!(snaps.len(), 1);
    assert_eq!(snaps[0].id, id);
    assert_eq!(snaps[0].index, 10);
    assert_eq!(snaps[0].term, 3);
    assert_eq!(snaps[0].size, 12);

    assert_eq!(disk.open(&id).unwrap(), b"first second");
}

#[test]
fn retain_reaps_older() {
    let mut disk = Disk::new(2);
    // Take 3 snapshots in order of increasing index.
    for i in 1..=3u64 {
        let text = format!("snap-{}", i);
        disk.take(i * 10, 1, i, &[text.as_bytes()]);
    }
    let snaps = disk.store.listed(disk.metas());
    // Only the most recent 2 should be retained.
    assert_eq!(snaps.len(), 2);
    assert_eq!(disk.dirs.len(), 2);
    let ids: Vec<&str> = snaps.iter().map(|s| s.id.as_str()).collect();
    assert!(!ids.iter().any(|id| id.contains("-10-")));
    assert_eq!(snaps[0].index, 30);
}

#[test]
fn corrupted_state_fails_crc() {
    let mut disk = Disk::new(1);
    let id = disk.take(7, 1, 1, &[b"hello"]);
    disk.dirs[0].1 = b"corrupt".to_vec();
    let err = match disk.open(&id) {
        Ok(_) => panic!("expected CRC error"),
        Err(e) => e,
    };
    assert!(matches!(err, RaftError::Snapshot(ref msg) if msg.contains("CRC")));
}

#[test]
fn a_sink_ends_once() {
    let store = FileSnapshotStore::new("base".to_string(), 1).unwrap();
    let mut sink = store.begin(1, 5, 1, &test_configuration(), 1).unwrap();
    assert!(sink.end());
    assert!(!sink.end());
    assert!(store.begin(2, 5, 1, &test_configuration(), 1).is_err());
}

#[test]
fn temporary_directories_are_no_snapshots() {
    let tmp = tmp_name("3-10-1234");
    assert_eq!(tmp, "3-10-1234.tmp");
    assert!(!is_snapshot(&tmp, true));
    assert!(is_snapshot("3-10-1234", true));
    assert!(!is_snapshot("3-10-1234", false));
    assert!(is_snapshot("tmp", true));
}

#[test]
fn a_store_keeps_at_least_one() {
    match FileSnapshotStore::new("base".to_string(), 0).err().unwrap() {
        RaftError::Other(text) => assert_eq!(text, "must retain at least one snapshot"),
        other => panic!("unexpected error: {:?}", other),
    }
    let mut store = FileSnapshotStore::new("base".to_string(), 1).unwrap();
    assert_eq!(store.path(), "base");
    assert!(!store.no_sync());
    store.set_no_sync(true);
    assert!(store.no_sync());
}

fn bitwise(bytes: &[u8]) -> u64 {
    let mut c: u64 = u64::MAX;
    for b in bytes {
        c ^= *b as u64;
        for _ in 0..8 {
            c = if c & 1 != 0 {
                (c >> 1) ^ 0xC96C5795D7870F42
            } else {
                c >> 1
            };
        }
    }
    !c
}

#[test]
fn the_check_is_that_of_the_bits() {
    let mut whole = Crc64::new();
    whole.update(b"123456789");
    assert_eq!(whole.finish().0, bitwise(b"123456789"));
    assert_eq!(whole.finish().0, 0x995DC9BBDF1939FA);
    let mut letter = Crc64::new();
    letter.update(b"a");
    assert_eq!(letter.finish().0, 0x330284772E652B05);
    let mut pieces = Crc64::new();
    pieces.update(b"1234");
    pieces.update(b"");
    pieces.update(b"56789");
    assert_eq!(pieces.finish().0, whole.finish().0);
    assert_eq!(
        whole.finish().into_bytes(),
        whole.finish().0.to_be_bytes()
    );
    assert_eq!(Crc64::new().finish().0, 0);
}
