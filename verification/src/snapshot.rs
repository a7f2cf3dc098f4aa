//! Snapshots: their metadata, where they are kept, when one is taken, and
//! which log entries it makes dispensable.

use crate::config::SNAPSHOT_VERSION_MAX;
use crate::configuration::{Configuration, ServerView};
use crate::error::{step_and_cause, step_text, RaftError, Result};
use crate::log::{removal_answered, without_range, written_as, LogStore, LogView};
use crate::raft::{Configurations, NodeView, RaftCore};
use crate::state::RaftSharedState;
use crate::text::{decimal, joined, push_decimal};
use vstd::prelude::*;

verus! {

/// Metadata of a snapshot.
#[derive(Debug)]
pub struct SnapshotMeta {
    /// Version of the snapshot metadata format. Only version 1 is supported.
    pub version: u8,
    /// Opaque ID, used for opening.
    pub id: String,
    /// Index and term of the last log entry covered by the snapshot.
    pub index: u64,
    pub term: u64,
    /// Cluster membership as of `configuration_index`.
    pub configuration: Configuration,
    /// Log index where `configuration` was originally written.
    pub configuration_index: u64,
    /// Size of the snapshot contents in bytes.
    pub size: u64,
}

/// What a [`SnapshotMeta`] says.
#[verifier::ext_equal]
pub struct SnapshotMetaView {
    pub version: u8,
    pub id: Seq<char>,
    pub index: u64,
    pub term: u64,
    pub configuration: Seq<ServerView>,
    pub configuration_index: u64,
    pub size: u64,
}

impl View for SnapshotMeta {
    type V = SnapshotMetaView;

    open spec fn view(&self) -> SnapshotMetaView {
        SnapshotMetaView {
            version: self.version,
            id: self.id@,
            index: self.index,
            term: self.term,
            configuration: self.configuration@,
            configuration_index: self.configuration_index,
            size: self.size,
        }
    }
}

impl Clone for SnapshotMeta {
    fn clone(&self) -> (r: Self)
        ensures
            r@ == self@,
    {
        SnapshotMeta {
            version: self.version,
            id: self.id.clone(),
            index: self.index,
            term: self.term,
            configuration: self.configuration.clone(),
            configuration_index: self.configuration_index,
            size: self.size,
        }
    }
}

impl Default for SnapshotMeta {
    fn default() -> (r: Self)
        ensures
            r@ == (SnapshotMetaView {
                version: 0,
                id: Seq::empty(),
                index: 0,
                term: 0,
                configuration: Seq::empty(),
                configuration_index: 0,
                size: 0,
            }),
    {
        SnapshotMeta {
            version: 0,
            id: String::new(),
            index: 0,
            term: 0,
            configuration: Configuration::default(),
            configuration_index: 0,
            size: 0,
        }
    }
}

/// A reading of the system's clock, carried through unread.
#[verifier::external_type_specification]
#[verifier::external_body]
pub struct ExSystemTime(std::time::SystemTime);

/// `std::time::SystemTime::now`: the system's clock. Nothing is claimed of
/// the reading.
#[verifier::external_body]
fn system_now() -> (r: std::time::SystemTime) {
    std::time::SystemTime::now()
}

/// `std::time::SystemTime::duration_since` with the Unix epoch: the time that
/// has passed since then, none where the clock reads an earlier time.
/// Nothing is claimed of the span.
#[verifier::external_body]
fn since_epoch(t: &std::time::SystemTime) -> (r: Option<std::time::Duration>) {
    t.duration_since(std::time::UNIX_EPOCH).ok()
}

/// `std::time::Duration::as_millis`: the whole milliseconds of a span of the
/// system's clock. Nothing is claimed of the number.
#[verifier::external_body]
fn whole_millis(d: &std::time::Duration) -> (r: u128) {
    d.as_millis()
}

/// The ID of a snapshot that is begun at the given time.
pub open spec fn snapshot_id(term: u64, index: u64, millis: u128) -> Seq<char> {
    decimal(term as nat) + "-"@ + decimal(index as nat) + "-"@ + decimal(millis as nat)
}

/// The ID of a snapshot that is begun at the given time, in milliseconds.
pub fn snapshot_name_at(term: u64, index: u64, millis: u128) -> (r: String)
    ensures
        r@ == snapshot_id(term, index, millis),
{
    let mut out = String::new();
    push_decimal(&mut out, term as u128);
    out.append("-");
    push_decimal(&mut out, index as u128);
    out.append("-");
    push_decimal(&mut out, millis);
    assert(out@ =~= snapshot_id(term, index, millis));
    out
}

/// Generates a snapshot ID from the term, index and current time in
/// milliseconds.
pub fn snapshot_name(term: u64, index: u64) -> (r: String)
    ensures
        exists|millis: u128| r@ == #[trigger] snapshot_id(term, index, millis),
{
    let now = system_now();
    let millis: u128 = match since_epoch(&now) {
        Some(d) => whole_millis(&d),
        None => 0,
    };
    snapshot_name_at(term, index, millis)
}

/// A snapshot that is being written. The FSM writes state to it through its
/// store, which closes it on completion and cancels it on error.
pub trait SnapshotSink {
    /// The ID of the snapshot.
    closed spec fn name(&self) -> Seq<char> {
        arbitrary()
    }

    /// What has been written.
    closed spec fn written(&self) -> Seq<u8> {
        arbitrary()
    }

    /// The ID of the snapshot being written.
    fn id(&self) -> (r: String)
        ensures
            r@ == self.name(),
    ;
}

/// Flexible snapshot storage and retrieval.
pub trait SnapshotStore {
    type Sink: SnapshotSink;

    /// What an opened snapshot is read from.
    type Reader;

    /// Begins a snapshot at the given index and term, with the given
    /// committed configuration. The version controls the snapshot format;
    /// only version 1 is supported.
    fn create(
        &mut self,
        version: u8,
        index: u64,
        term: u64,
        configuration: &Configuration,
        configuration_index: u64,
    ) -> (r: Result<Self::Sink>)
        ensures
            r matches Ok(sink) ==> sink.written() == Seq::<u8>::empty(),
    ;

    /// Appends bytes to the snapshot contents, returning the number of bytes
    /// written.
    fn write(&mut self, sink: &mut Self::Sink, buf: &[u8]) -> (r: Result<usize>)
        ensures
            r matches Ok(n) ==> {
                &&& n == buf@.len()
                &&& final(sink).written() == old(sink).written() + buf@
                &&& final(sink).name() == old(sink).name()
            },
    ;

    /// Finishes the snapshot, making it durable and visible.
    fn close(&mut self, sink: &mut Self::Sink) -> Result<()>;

    /// Aborts the snapshot, discarding any written state.
    fn cancel(&mut self, sink: &mut Self::Sink) -> Result<()>;

    /// Lists the available snapshots in descending order (highest index
    /// first).
    fn list(&self) -> Result<Vec<SnapshotMeta>>;

    /// Opens the snapshot with the given ID for reading. Once the reader is
    /// dropped the snapshot is assumed to be no longer needed.
    fn open(&self, id: &str) -> Result<(SnapshotMeta, Self::Reader)>;
}

/// The most bytes that are written to a sink at once.
pub const COPY_CHUNK: usize = 65536;

/// The chunk of the data that begins at a position.
pub open spec fn chunk_at(data: Seq<u8>, done: int) -> Seq<u8> {
    if data.len() - done < COPY_CHUNK {
        data.skip(done)
    } else {
        data.subrange(done, done + COPY_CHUNK)
    }
}

/// Copies all data into the sink, a chunk at a time, returning the number of
/// bytes written.
pub fn copy_to_sink<N: SnapshotStore>(store: &mut N, sink: &mut N::Sink, data: &[u8]) -> (r: Result<
    u64,
>)
    ensures
        r matches Ok(total) ==> {
            &&& total == data@.len()
            &&& final(sink).written() == old(sink).written() + data@
            &&& final(sink).name() == old(sink).name()
        },
        r matches Err(e) ==> exists|done: int, st: &mut N, sk: &mut N::Sink, chunk: &[u8]|
            {
                &&& 0 <= done < data@.len()
                &&& done % COPY_CHUNK as int == 0
                &&& chunk@ == #[trigger] chunk_at(data@, done)
                &&& sk.written() == old(sink).written() + data@.take(done)
                &&& sk.name() == old(sink).name()
                &&& done == 0 ==> *st == *old(store) && *sk == *old(sink)
                &&& #[trigger] call_ensures(N::write, (st, sk, chunk), Err::<usize, RaftError>(e))
                &&& *final(st) == *final(store)
                &&& *final(sk) == *final(sink)
            },
{
    let mut done: usize = 0;
    assert(old(sink).written() + data@.take(0) =~= old(sink).written());
    while done < data.len()
        invariant
            done <= data@.len(),
            sink.written() == old(sink).written() + data@.take(done as int),
            sink.name() == old(sink).name(),
            done < data@.len() ==> done % COPY_CHUNK == 0,
            done == 0 ==> *store == *old(store) && *sink == *old(sink),
        decreases data@.len() - done,
    {
        let left: usize = data.len() - done;
        let n: usize = if left < COPY_CHUNK {
            left
        } else {
            COPY_CHUNK
        };
        let chunk = vstd::slice::slice_subrange(data, done, done + n);
        assert(chunk@ =~= chunk_at(data@, done as int));
        match store.write(sink, chunk) {
            Ok(_) => {},
            Err(e) => {
                return Err(e);
            },
        }
        assert(data@.take(done as int) + data@.subrange(done as int, done + n) =~= data@.take(
            done + n,
        ));
        assert(old(sink).written() + (data@.take(done as int) + data@.subrange(
            done as int,
            done + n,
        )) =~= (old(sink).written() + data@.take(done as int)) + data@.subrange(
            done as int,
            done + n,
        ));
        done += n;
    }
    assert(data@.take(done as int) =~= data@);
    Ok(done as u64)
}

/// Whether enough entries follow the last snapshot to take a new one.
pub open spec fn snapshot_due(last_log: u64, last_snapshot: u64, threshold: u64) -> bool {
    if last_log >= last_snapshot {
        last_log - last_snapshot >= threshold
    } else {
        threshold == 0
    }
}

/// The range of entries that a snapshot up to `snap_idx` makes dispensable:
/// up to the end of the snapshot, or `trailing` entries back from the end of
/// the log, whichever is further back.
pub open spec fn compaction_range(
    first_log: u64,
    last_log: u64,
    trailing: u64,
    snap_idx: u64,
) -> Option<(u64, u64)> {
    if last_log <= trailing {
        None
    } else {
        let back = (last_log - trailing) as u64;
        let max = if snap_idx <= back {
            snap_idx
        } else {
            back
        };
        if first_log > max {
            None
        } else {
            Some((first_log, max))
        }
    }
}

/// The log after the entries of a range were removed, if one is given.
pub open spec fn compacted(
    stored: Map<u64, LogView>,
    range: Option<(u64, u64)>,
) -> Map<u64, LogView> {
    match range {
        Some((min, max)) => without_range(stored, min, max),
        None => stored,
    }
}

/// Whether the entries of a range were removed from a log store, if one is
/// given.
pub open spec fn range_removed<L: LogStore>(
    before: L,
    range: Option<(u64, u64)>,
    after: L,
) -> bool {
    match range {
        Some((min, max)) => {
            &&& exists|removed: Result<()>| #[trigger]
                removal_answered(before, min, max, removed) && removed is Ok
            &&& written_as(before, compacted(before.entries(), range), after)
        },
        None => after == before,
    }
}

/// Whether a log store was trimmed for a snapshot up to `snap_idx`, from the
/// first index that the store itself names; or why it was not. A store that
/// cannot name its first index is left as it is.
pub open spec fn trims_logs<L: LogStore>(
    before: L,
    after: L,
    n: NodeView,
    snap_idx: u64,
    r: Result<()>,
) -> bool {
    match r {
        Ok(()) => exists|first_log: u64|
            call_ensures(L::first_index, (&before,), Ok::<u64, RaftError>(first_log))
                && range_removed(
                before,
                #[trigger] compaction_range(
                    first_log,
                    n.shared.last_log.0,
                    n.conf.trailing_logs,
                    snap_idx,
                ),
                after,
            ),
        Err(RaftError::Other(text)) => {
            ||| {
                &&& after == before
                &&& exists|e: RaftError| #[trigger]
                    call_ensures(L::first_index, (&before,), Err::<u64, RaftError>(e))
                        && step_text("failed to get first log index: "@, e, text@)
            }
            ||| exists|first_log: u64, e: RaftError|
                {
                    &&& call_ensures(L::first_index, (&before,), Ok::<u64, RaftError>(first_log))
                    &&& #[trigger] compaction_range(
                        first_log,
                        n.shared.last_log.0,
                        n.conf.trailing_logs,
                        snap_idx,
                    ) matches Some((min, max))
                    &&& removal_answered(before, min, max, Err(e))
                    &&& #[trigger] step_text("log compaction failed: "@, e, text@)
                }
        },
        Err(_) => false,
    }
}

/// A failed step as an error, with the step named before the cause.
pub fn failed_step(step: &str, cause: &RaftError) -> (r: RaftError)
    ensures
        r matches RaftError::Other(text) && step_text(step@, *cause, text@),
{
    RaftError::Other(step_and_cause(step, cause))
}

/// What a started snapshot covers.
#[derive(Debug, Clone, Copy, PartialEq, Eq, Structural)]
pub struct SnapshotStarted {
    pub index: u64,
    pub term: u64,
}

/// What is answered where the state machine did not start a snapshot: that
/// there is nothing new, or that the step failed.
pub open spec fn not_started_as(cause: RaftError, e: RaftError) -> bool {
    if cause is NothingNewToSnapshot {
        e is NothingNewToSnapshot
    } else {
        e matches RaftError::Other(text) && step_text("failed to start snapshot: "@, cause, text@)
    }
}

/// What is answered where the state machine did not start a snapshot.
pub fn snapshot_not_started(cause: RaftError) -> (r: RaftError)
    ensures
        not_started_as(cause, r),
{
    match cause {
        RaftError::NothingNewToSnapshot => RaftError::NothingNewToSnapshot,
        e => failed_step("failed to start snapshot: ", &e),
    }
}

/// With what a snapshot is created.
#[derive(Debug)]
pub struct SnapshotPlan {
    pub version: u8,
    pub index: u64,
    pub term: u64,
    pub configuration: Configuration,
    pub configuration_index: u64,
}

/// The complaint about a snapshot, or a restore, that a configuration entry
/// stands in the way of.
pub open spec fn wait_for_configuration(what: Seq<char>, at: u64, applied: u64) -> Seq<char> {
    "cannot "@ + what + " snapshot now, wait until the configuration entry at "@ + decimal(
        at as nat,
    ) + " has been applied (have applied "@ + decimal(applied as nat) + ")"@
}

/// The complaint about a snapshot, or a restore, that a configuration entry
/// stands in the way of.
pub fn wait_for_configuration_text(what: &str, at: u64, applied: u64) -> (r: String)
    ensures
        r@ == wait_for_configuration(what@, at, applied),
{
    let mut out = joined("cannot ", what);
    out.append(" snapshot now, wait until the configuration entry at ");
    push_decimal(&mut out, at as u128);
    out.append(" has been applied (have applied ");
    push_decimal(&mut out, applied as u128);
    out.append(")");
    out
}

impl RaftCore {
    /// Checks if we meet the conditions to take a new snapshot: enough new
    /// logs since the last snapshot, given the last index of the log.
    pub fn snapshot_is_due(&self, last_log: u64) -> (r: bool)
        ensures
            r == snapshot_due(
                last_log,
                self@.shared.last_snapshot.0,
                self@.conf.snapshot_threshold,
            ),
    {
        let last_snap: u64 = self.shared.last_snapshot_index();
        last_log.saturating_sub(last_snap) >= self.conf.snapshot_threshold
    }

    /// Checks if we meet the conditions to take a new snapshot.
    pub fn should_snapshot<L: LogStore>(&self, logs: &L) -> (r: Result<bool>)
        ensures
            match r {
                Ok(due) => exists|last_log: u64|
                    call_ensures(L::last_index, (logs,), Ok::<u64, RaftError>(last_log)) && due
                        == #[trigger] snapshot_due(
                        last_log,
                        self@.shared.last_snapshot.0,
                        self@.conf.snapshot_threshold,
                    ),
                Err(e) => call_ensures(L::last_index, (logs,), Err::<u64, RaftError>(e)),
            },
    {
        match logs.last_index() {
            Ok(last_log) => Ok(self.snapshot_is_due(last_log)),
            Err(e) => Err(e),
        }
    }

    /// With what a snapshot is created that the FSM has started (or failed to
    /// start), given the configurations of the main loop.
    pub fn plan_snapshot(
        started: Result<SnapshotStarted>,
        configurations: &Configurations,
    ) -> (r: Result<SnapshotPlan>)
        ensures
            match started {
                Ok(s) => if s.index < configurations.committed_index {
                    r matches Err(RaftError::Other(text)) && text@ == wait_for_configuration(
                        "take"@,
                        configurations.committed_index,
                        s.index,
                    )
                } else {
                    r matches Ok(plan) && plan.version == SNAPSHOT_VERSION_MAX && plan.index
                        == s.index && plan.term == s.term && plan.configuration@
                        == configurations.committed@ && plan.configuration_index
                        == configurations.committed_index
                },
                Err(cause) => r matches Err(e) && not_started_as(cause, e),
            },
    {
        let s = match started {
            Ok(s) => s,
            Err(e) => {
                return Err(snapshot_not_started(e));
            },
        };
        // We don't support snapshots while there's a config change
        // outstanding since the snapshot doesn't have a means to represent
        // this state.
        if s.index < configurations.committed_index {
            return Err(
                RaftError::Other(
                    wait_for_configuration_text("take", configurations.committed_index, s.index),
                ),
            );
        }
        Ok(
            SnapshotPlan {
                version: SNAPSHOT_VERSION_MAX,
                index: s.index,
                term: s.term,
                configuration: configurations.committed.clone(),
                configuration_index: configurations.committed_index,
            },
        )
    }

    /// Concludes a snapshot that was persisted: it becomes the last one, and
    /// the logs are compacted.
    pub fn finish_snapshot<L: LogStore>(&mut self, logs: &mut L, index: u64, term: u64) -> (r:
        Result<()>)
        ensures
            final(self)@ == (NodeView {
                shared: RaftSharedState { last_snapshot: (index, term), ..old(self)@.shared },
                ..old(self)@
            }),
            trims_logs(*old(logs), *final(logs), old(self)@, index, r),
    {
        self.shared.set_last_snapshot(index, term);
        self.compact_logs(logs, index)
    }

    /// The range of entries to compact, given the first index of the log.
    pub fn range_to_compact(&self, first_log: u64, snap_idx: u64) -> (r: Option<(u64, u64)>)
        ensures
            r == compaction_range(
                first_log,
                self@.shared.last_log.0,
                self@.conf.trailing_logs,
                snap_idx,
            ),
    {
        let last_log: u64 = self.shared.last_log_index();
        let trailing: u64 = self.conf.trailing_logs;
        // Check if we have enough logs to truncate.
        if last_log <= trailing {
            return None;
        }
        let back: u64 = last_log - trailing;
        let max_log: u64 = if snap_idx <= back {
            snap_idx
        } else {
            back
        };
        if first_log > max_log {
            return None;
        }
        Some((first_log, max_log))
    }

    /// Takes the last inclusive index of a snapshot and trims the logs that
    /// are no longer needed, honoring the trailing-logs configuration.
    pub fn compact_logs<L: LogStore>(&self, logs: &mut L, snap_idx: u64) -> (r: Result<()>)
        ensures
            trims_logs(*old(logs), *final(logs), self@, snap_idx, r),
    {
        let first_log: u64 = match logs.first_index() {
            Ok(first_log) => first_log,
            Err(e) => {
                return Err(failed_step("failed to get first log index: ", &e));
            },
        };
        match self.range_to_compact(first_log, snap_idx) {
            Some((min, max)) => {
                let removed = logs.delete_range(min, max);
                assert(removal_answered(*old(logs), min, max, removed));
                match removed {
                    Ok(()) => Ok(()),
                    Err(e) => Err(failed_step("log compaction failed: ", &e)),
                }
            },
            None => Ok(()),
        }
    }
}

/// Compaction removes nothing that the snapshot does not cover, and leaves as
/// many entries at the end of the log as are to trail.
pub proof fn law_compaction_keeps_what_is_needed(
    stored: Map<u64, LogView>,
    first_log: u64,
    last_log: u64,
    trailing: u64,
    snap_idx: u64,
    index: u64,
)
    requires
        stored.contains_key(index),
        index > snap_idx || index + trailing > last_log,
    ensures
        compacted(
            stored,
            compaction_range(first_log, last_log, trailing, snap_idx),
        ).contains_key(index),
        compacted(stored, compaction_range(first_log, last_log, trailing, snap_idx))[index]
            == stored[index],
{
}

} // verus!
