//! Snapshot stores in memory: one that keeps the most recent snapshot, and
//! one that keeps none.

use crate::config::SNAPSHOT_VERSION_MAX;
use crate::configuration::{Configuration, ServerView};
use crate::error::{RaftError, Result};
use crate::snapshot::{
    snapshot_id, snapshot_name, SnapshotMeta, SnapshotMetaView, SnapshotSink, SnapshotStore,
};
use crate::text::{decimal, joined, push_decimal, same_text};
use vstd::prelude::*;

verus! {

/// A snapshot that is held in memory.
struct InmemSnapshotData {
    serial: u64,
    meta: SnapshotMeta,
    contents: Vec<u8>,
}

/// What an [`InmemSnapshotStore`] holds.
#[verifier::ext_equal]
pub struct HeldSnapshot {
    /// Tells the snapshots of one store apart.
    pub serial: u64,
    pub meta: SnapshotMetaView,
    pub contents: Seq<u8>,
}

/// Implements the [`SnapshotStore`] interface in memory, retaining only the
/// most recent snapshot. Only suitable for testing.
pub struct InmemSnapshotStore {
    latest: Option<InmemSnapshotData>,
    next_serial: u64,
}

/// The complaint about a snapshot format that is not supported.
pub open spec fn unsupported_snapshot_version(version: u8) -> Seq<char> {
    "unsupported snapshot version "@ + decimal(version as nat)
}

/// The complaint about a snapshot format that is not supported.
pub fn unsupported_snapshot_text(version: u8) -> (r: String)
    ensures
        r@ == unsupported_snapshot_version(version),
{
    let mut out = "unsupported snapshot version ".to_owned();
    push_decimal(&mut out, version as u128);
    out
}

/// The metadata of a snapshot that is begun.
pub open spec fn begun_meta(
    version: u8,
    id: Seq<char>,
    index: u64,
    term: u64,
    configuration: Seq<ServerView>,
    configuration_index: u64,
) -> SnapshotMetaView {
    SnapshotMetaView { version, id, index, term, configuration, configuration_index, size: 0 }
}

/// A held snapshot after more was written to it.
pub open spec fn held_with(held: HeldSnapshot, buf: Seq<u8>) -> HeldSnapshot {
    let contents = held.contents + buf;
    HeldSnapshot {
        meta: SnapshotMetaView { size: contents.len() as u64, ..held.meta },
        contents,
        ..held
    }
}

impl InmemSnapshotStore {
    /// The snapshot that is held.
    pub closed spec fn held(&self) -> Option<HeldSnapshot> {
        match self.latest {
            Some(data) => Some(
                HeldSnapshot {
                    serial: data.serial,
                    meta: data.meta@,
                    contents: data.contents@,
                },
            ),
            None => None,
        }
    }

    /// The serial number of the next snapshot.
    pub closed spec fn upcoming(&self) -> u64 {
        self.next_serial
    }

    /// A store without a snapshot.
    pub fn new() -> (r: Self)
        ensures
            r.held() is None,
            r.upcoming() == 0,
    {
        InmemSnapshotStore { latest: None, next_serial: 0 }
    }
}

impl Default for InmemSnapshotStore {
    fn default() -> (r: Self)
        ensures
            r.held() is None,
            r.upcoming() == 0,
    {
        InmemSnapshotStore::new()
    }
}

/// Implements [`SnapshotSink`] in memory.
pub struct InmemSnapshotSink {
    serial: u64,
    id: String,
    written: Ghost<Seq<u8>>,
}

impl InmemSnapshotSink {
    /// The serial number of the snapshot.
    pub closed spec fn number(&self) -> u64 {
        self.serial
    }
}

impl SnapshotSink for InmemSnapshotSink {
    closed spec fn name(&self) -> Seq<char> {
        self.id@
    }

    closed spec fn written(&self) -> Seq<u8> {
        self.written@
    }

    fn id(&self) -> String {
        self.id.clone()
    }
}

impl SnapshotStore for InmemSnapshotStore {
    type Sink = InmemSnapshotSink;

    /// The contents, as they were when the snapshot was opened.
    type Reader = Vec<u8>;

    fn create(
        &mut self,
        version: u8,
        index: u64,
        term: u64,
        configuration: &Configuration,
        configuration_index: u64,
    ) -> (r: Result<InmemSnapshotSink>)
        ensures
            version != SNAPSHOT_VERSION_MAX ==> {
                &&& r matches Err(RaftError::Snapshot(text)) && text@
                    == unsupported_snapshot_version(version)
                &&& final(self).held() == old(self).held()
                &&& final(self).upcoming() == old(self).upcoming()
            },
            version == SNAPSHOT_VERSION_MAX ==> (r matches Ok(sink) && {
                &&& exists|millis: u128| sink.name() == #[trigger] snapshot_id(term, index, millis)
                &&& sink.number() == old(self).upcoming()
                &&& old(self).upcoming() < u64::MAX ==> final(self).upcoming() == old(
                    self,
                ).upcoming() + 1
                &&& old(self).upcoming() == u64::MAX ==> final(self).upcoming() == 0
                &&& final(self).held() == Some(
                    (HeldSnapshot {
                        serial: sink.number(),
                        meta: begun_meta(
                            version,
                            sink.name(),
                            index,
                            term,
                            configuration@,
                            configuration_index,
                        ),
                        contents: Seq::empty(),
                    }),
                )
            }),
    {
        if version != SNAPSHOT_VERSION_MAX {
            return Err(RaftError::Snapshot(unsupported_snapshot_text(version)));
        }
        let id = snapshot_name(term, index);
        let serial: u64 = self.next_serial;
        self.next_serial = serial.wrapping_add(1);
        self.latest = Some(
            InmemSnapshotData {
                serial,
                meta: SnapshotMeta {
                    version,
                    id: id.clone(),
                    index,
                    term,
                    configuration: configuration.clone(),
                    configuration_index,
                    size: 0,
                },
                contents: Vec::new(),
            },
        );
        Ok(InmemSnapshotSink { serial, id, written: Ghost(Seq::empty()) })
    }

    /// Appends bytes to the snapshot contents. Where a newer snapshot has
    /// replaced this one, nothing keeps them.
    fn write(&mut self, sink: &mut InmemSnapshotSink, buf: &[u8]) -> (r: Result<usize>)
        ensures
            r is Ok,
            final(sink).number() == old(sink).number(),
            final(self).upcoming() == old(self).upcoming(),
            final(self).held() == match old(self).held() {
                Some(held) => if held.serial == old(sink).number() {
                    Some(held_with(held, buf@))
                } else {
                    Some(held)
                },
                None => None,
            },
    {
        let mut latest: Option<InmemSnapshotData> = None;
        std::mem::swap(&mut latest, &mut self.latest);
        self.latest = match latest {
            Some(data) => if data.serial == sink.serial {
                let mut data = data;
                data.contents.extend_from_slice(buf);
                data.meta.size = data.contents.len() as u64;
                Some(data)
            } else {
                Some(data)
            },
            None => None,
        };
        sink.written = Ghost(sink.written@ + buf@);
        Ok(buf.len())
    }

    fn close(&mut self, sink: &mut InmemSnapshotSink) -> (r: Result<()>)
        ensures
            r is Ok,
            final(self).held() == old(self).held(),
            final(self).upcoming() == old(self).upcoming(),
            *final(sink) == *old(sink),
    {
        Ok(())
    }

    /// Aborts the snapshot, discarding any written state. A newer snapshot
    /// stays.
    fn cancel(&mut self, sink: &mut InmemSnapshotSink) -> (r: Result<()>)
        ensures
            r is Ok,
            final(self).upcoming() == old(self).upcoming(),
            final(self).held() == match old(self).held() {
                Some(held) => if held.serial == old(sink).number() {
                    None
                } else {
                    Some(held)
                },
                None => None,
            },
            *final(sink) == *old(sink),
    {
        let own = match &self.latest {
            Some(data) => data.serial == sink.serial,
            None => false,
        };
        if own {
            self.latest = None;
        }
        Ok(())
    }

    fn list(&self) -> (r: Result<Vec<SnapshotMeta>>)
        ensures
            r matches Ok(snaps) && match self.held() {
                Some(held) => snaps@.len() == 1 && snaps@[0]@ == held.meta,
                None => snaps@.len() == 0,
            },
    {
        let mut snaps: Vec<SnapshotMeta> = Vec::new();
        match &self.latest {
            Some(data) => {
                snaps.push(data.meta.clone());
            },
            None => {},
        }
        Ok(snaps)
    }

    fn open(&self, id: &str) -> (r: Result<(SnapshotMeta, Vec<u8>)>)
        ensures
            match self.held() {
                Some(held) if held.meta.id == id@ => r matches Ok(opened) && opened.0@ == held.meta
                    && opened.1@ == held.contents,
                _ => r matches Err(RaftError::Snapshot(text)) && text@
                    == "failed to open snapshot id: "@ + id@,
            },
    {
        match &self.latest {
            Some(data) => {
                if same_text(data.meta.id.as_str(), id) {
                    let contents = data.contents.clone();
                    assert(contents@ =~= data.contents@);
                    return Ok((data.meta.clone(), contents));
                }
            },
            None => {},
        }
        Err(RaftError::Snapshot(joined("failed to open snapshot id: ", id)))
    }
}

/// What is written to a snapshot, piece by piece, is what opening it gives
/// back.
pub proof fn law_written_pieces_are_read_back(held: HeldSnapshot, first: Seq<u8>, second: Seq<u8>)
    ensures
        held_with(held_with(held, first), second) == held_with(held, first + second),
{
    assert(held.contents + first + second =~= held.contents + (first + second));
}

/// Successfully snapshots while always discarding the result, for when the
/// log should be truncated but no snapshot retained. Never for production
/// use; only suitable for testing.
pub struct DiscardSnapshotStore {}

impl DiscardSnapshotStore {
    /// A store that keeps nothing.
    pub fn new() -> (r: Self)
        ensures
            r == (DiscardSnapshotStore {  }),
    {
        DiscardSnapshotStore {  }
    }
}

impl Default for DiscardSnapshotStore {
    fn default() -> (r: Self)
        ensures
            r == (DiscardSnapshotStore {  }),
    {
        DiscardSnapshotStore {  }
    }
}

/// Implements [`SnapshotSink`] while always discarding.
pub struct DiscardSnapshotSink {
    written: Ghost<Seq<u8>>,
}

impl SnapshotSink for DiscardSnapshotSink {
    open spec fn name(&self) -> Seq<char> {
        "discard"@
    }

    closed spec fn written(&self) -> Seq<u8> {
        self.written@
    }

    fn id(&self) -> String {
        "discard".to_owned()
    }
}

impl SnapshotStore for DiscardSnapshotStore {
    type Sink = DiscardSnapshotSink;

    type Reader = Vec<u8>;

    fn create(
        &mut self,
        _version: u8,
        _index: u64,
        _term: u64,
        _configuration: &Configuration,
        _configuration_index: u64,
    ) -> (r: Result<DiscardSnapshotSink>)
        ensures
            r is Ok,
    {
        Ok(DiscardSnapshotSink { written: Ghost(Seq::empty()) })
    }

    fn write(&mut self, sink: &mut DiscardSnapshotSink, buf: &[u8]) -> (r: Result<usize>)
        ensures
            r is Ok,
    {
        sink.written = Ghost(sink.written@ + buf@);
        Ok(buf.len())
    }

    fn close(&mut self, sink: &mut DiscardSnapshotSink) -> (r: Result<()>)
        ensures
            r is Ok,
            *final(sink) == *old(sink),
    {
        Ok(())
    }

    fn cancel(&mut self, sink: &mut DiscardSnapshotSink) -> (r: Result<()>)
        ensures
            r is Ok,
            *final(sink) == *old(sink),
    {
        Ok(())
    }

    fn list(&self) -> (r: Result<Vec<SnapshotMeta>>)
        ensures
            r matches Ok(snaps) && snaps@.len() == 0,
    {
        Ok(Vec::new())
    }

    fn open(&self, _id: &str) -> (r: Result<(SnapshotMeta, Vec<u8>)>)
        ensures
            r matches Err(RaftError::Snapshot(text)) && text@ == "open is not supported"@,
    {
        Err(RaftError::Snapshot("open is not supported".to_owned()))
    }
}

} // verus!
