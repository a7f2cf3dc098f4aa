//! Log entries and the store that keeps them.

use crate::error::{RaftError, Result};
use crate::time::Instant;
use vstd::prelude::*;

verus! {

/// Type of a log entry.
#[derive(Debug, Clone, Copy, PartialEq, Eq, Structural)]
pub enum LogType {
    /// A command applied to the user FSM.
    Command,
    /// A no-op, committed by a new leader to establish its term.
    Noop,
    /// A barrier, used to wait until preceding logs are applied.
    Barrier,
    /// A cluster configuration change.
    Configuration,
}

impl LogType {
    /// The number that stands for the type on disk and on the wire.
    pub fn code(&self) -> (r: u8)
        ensures
            r == log_type_code(*self),
    {
        match self {
            LogType::Command => 0,
            LogType::Noop => 1,
            LogType::Barrier => 3,
            LogType::Configuration => 4,
        }
    }
}

/// The number that stands for a log type.
pub open spec fn log_type_code(t: LogType) -> u8 {
    match t {
        LogType::Command => 0,
        LogType::Noop => 1,
        LogType::Barrier => 3,
        LogType::Configuration => 4,
    }
}

/// A single log entry.
#[derive(Debug)]
pub struct Log {
    /// Index of this entry in the log.
    pub index: u64,
    /// Term in which this entry was created.
    pub term: u64,
    /// Type of this entry.
    pub log_type: LogType,
    /// Opaque payload.
    pub data: Vec<u8>,
    /// Opaque extensions, used by transports for leadership transfer.
    pub extensions: Vec<u8>,
    /// When the entry was appended on the leader. Not sent on the wire.
    pub appended_at: Option<Instant>,
}

/// What a [`Log`] entry says.
#[verifier::ext_equal]
pub struct LogView {
    pub index: u64,
    pub term: u64,
    pub log_type: LogType,
    pub data: Seq<u8>,
    pub extensions: Seq<u8>,
    pub appended_at: Option<Instant>,
}

impl View for Log {
    type V = LogView;

    open spec fn view(&self) -> LogView {
        LogView {
            index: self.index,
            term: self.term,
            log_type: self.log_type,
            data: self.data@,
            extensions: self.extensions@,
            appended_at: self.appended_at,
        }
    }
}

impl Clone for Log {
    fn clone(&self) -> (r: Self)
        ensures
            r@ == self@,
    {
        let data = self.data.clone();
        let extensions = self.extensions.clone();
        assert(data@ =~= self.data@);
        assert(extensions@ =~= self.extensions@);
        Log {
            index: self.index,
            term: self.term,
            log_type: self.log_type,
            data,
            extensions,
            appended_at: self.appended_at,
        }
    }
}

/// Two entries are the same for the protocol; when each was appended, which is
/// not sent on the wire, is no part of that.
pub open spec fn same_entry(a: LogView, b: LogView) -> bool {
    &&& a.index == b.index
    &&& a.term == b.term
    &&& a.log_type == b.log_type
    &&& a.data == b.data
    &&& a.extensions == b.extensions
}

/// An empty command entry.
pub open spec fn blank_log() -> LogView {
    LogView {
        index: 0,
        term: 0,
        log_type: LogType::Command,
        data: Seq::empty(),
        extensions: Seq::empty(),
        appended_at: None,
    }
}

impl Default for Log {
    fn default() -> (r: Self)
        ensures
            r@ == blank_log(),
    {
        Log {
            index: 0,
            term: 0,
            log_type: LogType::Command,
            data: Vec::new(),
            extensions: Vec::new(),
            appended_at: None,
        }
    }
}

/// What a list of entries says, entry by entry.
pub open spec fn log_views(logs: Seq<Log>) -> Seq<LogView> {
    logs.map_values(|l: Log| l@)
}

/// The entries by index after more entries were written, in order; a later
/// entry replaces an earlier one of the same index.
pub open spec fn with_logs(stored: Map<u64, LogView>, logs: Seq<LogView>) -> Map<u64, LogView>
    decreases logs.len(),
{
    if logs.len() == 0 {
        stored
    } else {
        with_logs(stored, logs.drop_last()).insert(logs.last().index, logs.last())
    }
}

/// The entries by index without those from `min` to `max`, both included.
pub open spec fn without_range(stored: Map<u64, LogView>, min: u64, max: u64) -> Map<u64, LogView> {
    Map::new(
        |index: u64| stored.contains_key(index) && !(min <= index <= max),
        |index: u64| stored[index],
    )
}

/// Store for the raft log entries.
///
/// `entries` is what the store gives back. While the store is `settled`, a
/// write that succeeds changes that by what was written and nothing else. A
/// call that fails promises nothing of what is given back afterwards, nor that
/// the store is still settled.
pub trait LogStore {
    /// The entries that are given back, by index.
    closed spec fn entries(&self) -> Map<u64, LogView> {
        arbitrary()
    }

    /// Whether what is given back changes only by what is written.
    closed spec fn settled(&self) -> bool {
        arbitrary()
    }

    /// Returns the first index written, 0 for empty.
    fn first_index(&self) -> Result<u64>;

    /// Returns the last index written, 0 for empty.
    fn last_index(&self) -> Result<u64>;

    /// Gets the log entry at the given index.
    fn get_log(&self, index: u64) -> (r: Result<Log>)
        ensures
            r matches Ok(log) ==> self.entries().contains_key(index) && log@
                == self.entries()[index],
    ;

    /// Stores a single log entry.
    fn store_log(&mut self, log: &Log) -> (r: Result<()>)
        ensures
            r is Ok && old(self).settled() ==> {
                &&& final(self).settled()
                &&& final(self).entries() == old(self).entries().insert(log.index, log@)
            },
    ;

    /// Stores multiple log entries, in order.
    fn store_logs(&mut self, logs: &Vec<Log>) -> (r: Result<()>)
        ensures
            r is Ok && old(self).settled() ==> {
                &&& final(self).settled()
                &&& final(self).entries() == with_logs(old(self).entries(), log_views(logs@))
            },
        default_ensures
            r matches Err(e) ==> exists|k: int, s: &mut Self, log: &Log|
                {
                    &&& 0 <= k < logs@.len()
                    &&& old(self).settled() ==> s.settled() && s.entries() == with_logs(
                        old(self).entries(),
                        log_views(logs@).take(k),
                    )
                    &&& *log == #[trigger] logs@[k]
                    &&& #[trigger] call_ensures(Self::store_log, (s, log), Err::<(), RaftError>(e))
                    &&& final(s).entries() == final(self).entries()
                },
    {
        let mut i: usize = 0;
        assert(log_views(logs@).take(0) =~= Seq::empty());
        while i < logs.len()
            invariant
                i <= logs@.len(),
                old(self).settled() ==> self.settled() && self.entries() == with_logs(
                    old(self).entries(),
                    log_views(logs@).take(i as int),
                ),
            decreases logs@.len() - i,
        {
            assert(log_views(logs@).take(i + 1).drop_last() =~= log_views(logs@).take(i as int));
            assert(log_views(logs@)[i as int] == logs@[i as int]@);
            let log = &logs[i];
            match self.store_log(log) {
                Ok(()) => {},
                Err(e) => {
                    return Err(e);
                },
            }
            i += 1;
        }
        assert(log_views(logs@).take(i as int) =~= log_views(logs@));
        Ok(())
    }

    /// Deletes a range of log entries, inclusive on both ends.
    fn delete_range(&mut self, min: u64, max: u64) -> (r: Result<()>)
        ensures
            r is Ok && old(self).settled() ==> {
                &&& final(self).settled()
                &&& final(self).entries() == without_range(old(self).entries(), min, max)
            },
    ;
}

/// Whether a log store was left so by writes that succeeded: where it was
/// settled it still is, and gives back `stored`.
pub open spec fn written_as<L: LogStore>(before: L, stored: Map<u64, LogView>, now: L) -> bool {
    before.settled() ==> now.settled() && now.entries() == stored
}

/// Whether a log store may answer so where a range of entries is to be removed.
pub open spec fn removal_answered<L: LogStore>(logs: L, min: u64, max: u64, r: Result<()>) -> bool {
    exists|s: &mut L| *s == logs && #[trigger] call_ensures(L::delete_range, (s, min, max), r)
}

/// Whether a log store may answer so where these entries are to be stored.
pub open spec fn storing_answered<L: LogStore>(
    logs: L,
    entries: Seq<LogView>,
    r: Result<()>,
) -> bool {
    exists|s: &mut L, v: &Vec<Log>|
        *s == logs && log_views(v@) == entries && #[trigger] call_ensures(
            L::store_logs,
            (s, v),
            r,
        )
}

/// Whether a log store may answer so where one entry is to be stored.
pub open spec fn entry_answered<L: LogStore>(logs: L, entry: LogView, r: Result<()>) -> bool {
    exists|s: &mut L, log: &Log|
        *s == logs && log@ == entry && #[trigger] call_ensures(L::store_log, (s, log), r)
}

/// A log store that also tracks the commit index, for log stores that
/// support restoring committed logs.
pub trait CommitTrackingLogStore: LogStore {
    /// The commit index that was staged last.
    closed spec fn staged(&self) -> u64 {
        arbitrary()
    }

    /// Stages the commit index, to be made durable by the store.
    fn stage_commit_index(&mut self, index: u64) -> (r: Result<()>)
        ensures
            r is Ok ==> {
                &&& final(self).staged() == index
                &&& final(self).entries() == old(self).entries()
                &&& old(self).settled() ==> final(self).settled()
            },
    ;

    /// Returns the staged commit index, 0 if none was staged.
    fn get_commit_index(&self) -> (r: Result<u64>)
        ensures
            r matches Ok(index) ==> index == self.staged(),
    ;
}

/// The last entry written for an index is the one that is held there.
pub proof fn law_last_written_log_is_held(stored: Map<u64, LogView>, logs: Seq<LogView>, k: int)
    requires
        0 <= k < logs.len(),
        forall|j: int| k < j < logs.len() ==> (#[trigger] logs[j]).index != logs[k].index,
    ensures
        with_logs(stored, logs).contains_key(logs[k].index),
        with_logs(stored, logs)[logs[k].index] == logs[k],
    decreases logs.len(),
{
    if k < logs.len() - 1 {
        let front = logs.drop_last();
        assert(logs[logs.len() - 1].index != logs[k].index);
        assert forall|j: int| k < j < front.len() implies (#[trigger] front[j]).index
            != front[k].index by {
            assert(logs[j].index != logs[k].index);
        }
        law_last_written_log_is_held(stored, front, k);
    }
}

/// An index that no written entry has keeps what it held.
pub proof fn law_other_indexes_keep_their_logs(
    stored: Map<u64, LogView>,
    logs: Seq<LogView>,
    index: u64,
)
    requires
        forall|j: int| 0 <= j < logs.len() ==> (#[trigger] logs[j]).index != index,
    ensures
        with_logs(stored, logs).contains_key(index) == stored.contains_key(index),
        stored.contains_key(index) ==> with_logs(stored, logs)[index] == stored[index],
    decreases logs.len(),
{
    if logs.len() > 0 {
        let front = logs.drop_last();
        assert(logs[logs.len() - 1].index != index);
        assert forall|j: int| 0 <= j < front.len() implies (#[trigger] front[j]).index != index by {
            assert(logs[j].index != index);
        }
        law_other_indexes_keep_their_logs(stored, front, index);
    }
}

} // verus!
