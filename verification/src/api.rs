//! The raft node as its clients see it: how it starts, what it tells, and
//! how requests to it are made and refused.

use crate::append::{decoded_views, with_last_log, with_log_entries};
use crate::apply::unread_in;
use crate::config::{config_fault, Config, ConfigView};
use crate::configuration::{
    check_configuration, first_fault, valid_servers, Configuration, ConfigurationChangeCommand,
    ConfigurationChangeRequest, ServerAddress, ServerID, ServerView,
};
use crate::error::{step_text, RaftError, Result};
use crate::fsm::{Trace, FSM};
use crate::log::{blank_log, entry_answered, written_as, Log, LogStore, LogType, LogView};
use crate::raft::{
    no_configurations, recorded_term, term_unsaved, with_committed, with_latest, with_term,
    ConfigurationValue, Configurations, Fatal, NodeView, RaftCore,
};
use crate::replication::entries_between;
use crate::snapshot::{failed_step, SnapshotMeta, SnapshotMetaView, SnapshotStore};
use crate::stable::{key_bytes, number_answered, number_unread, StableStore, CURRENT_TERM_KEY};
use crate::state::{fresh_state, state_name, RaftSharedState, RaftState};
use crate::text::{decimal, push_decimal, same_text};
use crate::time::{Duration, Instant};
use vstd::prelude::*;

verus! {

/// A node that has seen nothing yet.
pub open spec fn fresh_node(conf: ConfigView, local_addr: Seq<char>) -> NodeView {
    NodeView {
        conf,
        shared: fresh_state(),
        local_id: conf.local_id,
        local_addr,
        leader_addr: Seq::empty(),
        leader_id: Seq::empty(),
        from_transfer: false,
        configurations: no_configurations(),
        readable: Seq::empty(),
        readable_index: 0,
        observed: Seq::empty(),
        shutdown: false,
    }
}

/// The node after it adopted a snapshot: what the snapshot covers counts as
/// applied, and its configuration as committed.
pub open spec fn adopted(n: NodeView, meta: SnapshotMetaView) -> NodeView {
    let m = NodeView {
        shared: RaftSharedState {
            last_applied: meta.index,
            last_snapshot: (meta.index, meta.term),
            ..n.shared
        },
        ..n
    };
    with_latest(
        with_committed(m, meta.configuration, meta.configuration_index),
        meta.configuration,
        meta.configuration_index,
    )
}

/// Whether opening a snapshot gave a reader, or none where that failed.
pub open spec fn opens<N: SnapshotStore>(
    snaps: &N,
    id: Seq<char>,
    reader: Option<N::Reader>,
) -> bool {
    exists|name: &str, r: Result<(SnapshotMeta, N::Reader)>|
        name@ == id && #[trigger] call_ensures(N::open, (snaps, name), r) && reader == match r {
            Ok((_, source)) => Some(source),
            Err(_) => None,
        }
}

/// Whether opening these snapshots, from the first on, gave these readers.
pub open spec fn opens_all<N: SnapshotStore>(
    snaps: &N,
    metas: Seq<SnapshotMeta>,
    readers: Seq<Option<N::Reader>>,
) -> bool {
    &&& readers.len() <= metas.len()
    &&& forall|i: int|
        0 <= i < readers.len() ==> opens(snaps, metas[i].id@, #[trigger] readers[i])
}

/// The readers from which a machine was given to restore, to no avail.
pub open spec fn failed_restores<S>(readers: Seq<Option<S>>) -> Seq<(S, bool)>
    decreases readers.len(),
{
    if readers.len() == 0 {
        Seq::empty()
    } else {
        let before = failed_restores(readers.drop_last());
        match readers.last() {
            Some(source) => before.push((source, false)),
            None => before,
        }
    }
}

/// Whether the machine was restored from the snapshot at `k`, after those
/// before it had been tried in order.
pub open spec fn restored_from<R, N: SnapshotStore>(
    before: Trace<R, N::Reader>,
    snaps: &N,
    metas: Seq<SnapshotMeta>,
    k: int,
    after: Trace<R, N::Reader>,
) -> bool {
    exists|readers: Seq<Option<N::Reader>>, source: N::Reader|
        {
            &&& readers.len() == k
            &&& #[trigger] opens_all(snaps, metas, readers)
            &&& #[trigger] opens(snaps, metas[k].id@, Some(source))
            &&& after == (Trace {
                restored: (before.restored + failed_restores(readers)).push((source, true)),
                ..before
            })
        }
}

/// Whether all snapshots were tried in order, and the machine was restored
/// from none.
pub open spec fn restored_from_none<R, N: SnapshotStore>(
    before: Trace<R, N::Reader>,
    snaps: &N,
    metas: Seq<SnapshotMeta>,
    after: Trace<R, N::Reader>,
) -> bool {
    exists|readers: Seq<Option<N::Reader>>|
        {
            &&& readers.len() == metas.len()
            &&& #[trigger] opens_all(snaps, metas, readers)
            &&& after == (Trace {
                restored: before.restored + failed_restores(readers),
                ..before
            })
        }
}

/// The index of the last entry that needs no scan for configurations: it is
/// covered by the snapshot or applied.
pub open spec fn settled_index(n: NodeView) -> u64 {
    if n.shared.last_snapshot.0 >= n.shared.last_applied {
        n.shared.last_snapshot.0
    } else {
        n.shared.last_applied
    }
}

/// The entries that are scanned for configurations when a node starts.
pub open spec fn unsettled_entries(n: NodeView, stored: Map<u64, LogView>) -> Seq<LogView> {
    entries_between(stored, settled_index(n) + 1, n.shared.last_log.0 as int)
}

/// Whether `decode` made a configuration, or none, of a configuration entry.
pub open spec fn decodes<D: Fn(&Vec<u8>) -> Option<Configuration>>(
    decode: &D,
    entry: LogView,
    decoded: Option<Configuration>,
) -> bool {
    entry.log_type == LogType::Configuration ==> exists|data: Vec<u8>|
        data@ == entry.data && #[trigger] call_ensures(decode, (&data,), decoded)
}

/// Whether `decode` made these configurations of the entries, one by one.
pub open spec fn decodes_all<D: Fn(&Vec<u8>) -> Option<Configuration>>(
    decode: &D,
    entries: Seq<LogView>,
    decoded: Seq<Option<Configuration>>,
) -> bool {
    &&& decoded.len() == entries.len()
    &&& forall|i: int|
        0 <= i < entries.len() ==> #[trigger] decodes(decode, entries[i], decoded[i])
}

/// Why a node did not start.
#[derive(Debug)]
pub enum StartError {
    Failed(RaftError),
    /// The node must not go on.
    Fatal(Fatal),
}

impl RaftCore {
    /// A node that has seen nothing yet.
    pub fn new(conf: Config, local_addr: ServerAddress) -> (r: Self)
        ensures
            r@ == fresh_node(conf@, local_addr@),
    {
        let local_id = conf.local_id.clone();
        let core = RaftCore {
            conf,
            shared: RaftSharedState::new(),
            local_id,
            local_addr,
            leader_addr: String::new(),
            leader_id: String::new(),
            candidate_from_leadership_transfer: false,
            configurations: Configurations::default(),
            latest_configuration: ConfigurationValue {
                configuration: Configuration::default(),
                index: 0,
            },
            observations: Vec::new(),
            shutdown: false,
        };
        assert(core@ =~= fresh_node(conf@, local_addr@));
        core
    }

    /// Adopts a snapshot, so that the entries it covers are not replayed.
    pub fn adopt_snapshot(&mut self, meta: &SnapshotMeta)
        ensures
            final(self)@ == adopted(old(self)@, meta@),
    {
        self.shared.set_last_applied(meta.index);
        self.shared.set_last_snapshot(meta.index, meta.term);
        self.set_committed_configuration(meta.configuration.clone(), meta.configuration_index);
        self.set_latest_configuration(meta.configuration.clone(), meta.configuration_index);
    }

    /// Attempts to restore a snapshot if there are any: tries them newest to
    /// oldest, and fails only if there are snapshots but none can be
    /// restored. Where restoring is disabled, the newest one is adopted as it
    /// is.
    pub fn restore_snapshot<F: FSM, N: SnapshotStore<Reader = F::Reader>>(
        &mut self,
        fsm: &mut F,
        snaps: &N,
        metas: &Vec<SnapshotMeta>,
    ) -> (r: Result<()>)
        ensures
            metas@.len() == 0 ==> r is Ok && final(self)@ == old(self)@ && final(fsm).trace()
                == old(fsm).trace(),
            metas@.len() > 0 && old(self)@.conf.no_snapshot_restore_on_start ==> {
                &&& r is Ok
                &&& final(self)@ == adopted(old(self)@, metas@[0]@)
                &&& final(fsm).trace() == old(fsm).trace()
            },
            metas@.len() > 0 && !old(self)@.conf.no_snapshot_restore_on_start && r is Ok
                ==> exists|k: int|
                0 <= k < metas@.len() && final(self)@ == adopted(
                    old(self)@,
                    (#[trigger] metas@[k])@,
                ) && restored_from(old(fsm).trace(), snaps, metas@, k, final(fsm).trace()),
            r matches Err(e) ==> {
                &&& e matches RaftError::Other(text) && text@
                    == "failed to load any existing snapshots"@
                &&& final(self)@ == old(self)@
                &&& restored_from_none(old(fsm).trace(), snaps, metas@, final(fsm).trace())
            },
    {
        let ghost base = fsm.trace();
        let ghost mut readers: Seq<Option<N::Reader>> = Seq::empty();
        let mut k: usize = 0;
        assert(base.restored + failed_restores(readers) =~= base.restored);
        while k < metas.len()
            invariant
                k <= metas@.len(),
                self@ == old(self)@,
                k > 0 ==> !old(self)@.conf.no_snapshot_restore_on_start,
                base == old(fsm).trace(),
                readers.len() == k,
                opens_all(snaps, metas@, readers),
                fsm.trace() == (Trace {
                    restored: base.restored + failed_restores(readers),
                    ..base
                }),
            decreases metas@.len() - k,
        {
            let mut success = true;
            if !self.conf.no_snapshot_restore_on_start {
                let ghost tried = readers;
                let name = metas[k].id.as_str();
                match snaps.open(name) {
                    Ok(opened) => {
                        let (_, source): (SnapshotMeta, N::Reader) = opened;
                        let ghost reader = source;
                        assert(opens(snaps, metas@[k as int].id@, Some(reader)));
                        match fsm.restore(source) {
                            Ok(()) => {
                                assert(restored_from(base, snaps, metas@, k as int, fsm.trace()));
                            },
                            Err(_) => {
                                success = false;
                                proof {
                                    readers = readers.push(Some(reader));
                                    assert(readers.drop_last() =~= tried);
                                    assert((base.restored + failed_restores(tried)).push(
                                        (reader, false),
                                    ) =~= base.restored + failed_restores(readers));
                                }
                            },
                        }
                    },
                    Err(_) => {
                        success = false;
                        proof {
                            readers = readers.push(None);
                            assert(readers.drop_last() =~= tried);
                        }
                    },
                }
            }
            if success {
                self.adopt_snapshot(&metas[k]);
                assert(self@ == adopted(old(self)@, metas@[k as int]@));
                return Ok(());
            }
            k += 1;
        }
        if metas.len() > 0 {
            assert(restored_from_none(base, snaps, metas@, fsm.trace()));
            return Err(RaftError::Other("failed to load any existing snapshots".to_owned()));
        }
        Ok(())
    }

    /// Scans through the log for any configuration entries that are neither
    /// covered by the snapshot nor applied.
    pub fn scan_configurations<L: LogStore, D: Fn(&Vec<u8>) -> Option<Configuration>>(
        &mut self,
        logs: &L,
        decode: &D,
    ) -> (r: std::result::Result<(), Fatal>)
        requires
            forall|data: &Vec<u8>| #[trigger] call_requires(decode, (data,)),
        ensures
            r is Ok ==> exists|decoded: Seq<Option<Configuration>>| #[trigger]
                decodes_all(decode, unsettled_entries(old(self)@, logs.entries()), decoded)
                    && final(self)@ == with_log_entries(
                    old(self)@,
                    unsettled_entries(old(self)@, logs.entries()),
                    decoded_views(decoded),
                ),
            r matches Err(f) ==> unread_in(*logs, f) && (f matches Fatal::LogUnread(index, _)
                && settled_index(old(self)@) < index <= old(self)@.shared.last_log.0),
    {
        let ghost n = self@;
        let ghost all = unsettled_entries(n, logs.entries());
        let first: u64 = if self.shared.last_snapshot_index() >= self.shared.last_applied() {
            self.shared.last_snapshot_index()
        } else {
            self.shared.last_applied()
        };
        let last: u64 = self.shared.last_log_index();
        let mut index: u64 = first;
        let ghost mut decoded: Seq<Option<Configuration>> = Seq::empty();
        assert(all.take(0) =~= Seq::empty());
        assert(decoded_views(decoded) =~= Seq::empty());
        while index < last
            invariant
                n == old(self)@,
                first == settled_index(n),
                last == n.shared.last_log.0,
                all == unsettled_entries(n, logs.entries()),
                first <= index,
                index <= last || index == first,
                decoded.len() == index - first,
                forall|i: int|
                    0 <= i < decoded.len() ==> #[trigger] decodes(decode, all[i], decoded[i]),
                self@ == with_log_entries(n, all.take(index - first), decoded_views(decoded)),
                forall|data: &Vec<u8>| #[trigger] call_requires(decode, (data,)),
            decreases last - index,
        {
            let ghost done = index - first;
            index += 1;
            let entry = match logs.get_log(index) {
                Ok(entry) => entry,
                Err(e) => {
                    return Err(Fatal::LogUnread(index, e));
                },
            };
            assert(entry@ == all[done]);
            let found = if entry.log_type == LogType::Configuration {
                decode(&entry.data)
            } else {
                None
            };
            assert(decodes(decode, all[done], found));
            self.process_configuration_log_entry(&entry, &found);
            proof {
                let before = decoded;
                decoded = decoded.push(found);
                assert(all.take(done + 1).drop_last() =~= all.take(done));
                assert(decoded_views(decoded).drop_last() =~= decoded_views(before));
                assert(decoded_views(decoded).last() == crate::raft::decoded_view(found));
            }
        }
        assert(all.take(index - first) =~= all);
        assert(decodes_all(decode, all, decoded));
        Ok(())
    }
}

/// Whether a server has any existing state, given what its stores hold.
pub open spec fn state_exists(term: Option<u64>, last_index: u64, snapshots: nat) -> bool {
    ||| term matches Some(t) && t > 0
    ||| last_index > 0
    ||| snapshots > 0
}

/// The recorded term, if one is recorded.
pub open spec fn term_on_record<S: StableStore>(stable: &S) -> Option<u64> {
    if stable.numbers().contains_key(key_bytes(CURRENT_TERM_KEY)) {
        Some(stable.numbers()[key_bytes(CURRENT_TERM_KEY)])
    } else {
        None
    }
}

/// Whether the question for existing state may be answered so, given what the
/// stores answer: each is asked only where those before it hold nothing.
pub open spec fn state_answered<L: LogStore, S: StableStore, N: SnapshotStore>(
    logs: &L,
    stable: &S,
    snaps: &N,
    r: Result<bool>,
) -> bool {
    match r {
        Ok(found) => {
            ||| found && recorded_term(stable) > 0
            ||| exists|last_index: u64| #[trigger]
                call_ensures(L::last_index, (logs,), Ok::<u64, RaftError>(last_index)) && found
                    && last_index > 0
            ||| exists|last_index: u64, metas: Vec<SnapshotMeta>|
                #![trigger call_ensures(L::last_index, (logs,), Ok::<u64, RaftError>(last_index)), call_ensures(N::list, (snaps,), Ok::<Vec<SnapshotMeta>, RaftError>(metas))]
                {
                    &&& call_ensures(L::last_index, (logs,), Ok::<u64, RaftError>(last_index))
                    &&& call_ensures(N::list, (snaps,), Ok::<Vec<SnapshotMeta>, RaftError>(metas))
                    &&& found == state_exists(
                        term_on_record(stable),
                        last_index,
                        metas@.len(),
                    )
                }
        },
        Err(RaftError::Other(text)) => {
            ||| exists|e: RaftError| #[trigger]
                number_unread(*stable, key_bytes(CURRENT_TERM_KEY), e) && step_text(
                    "failed to read current term: "@,
                    e,
                    text@,
                )
            ||| recorded_term(stable) == 0 && exists|e: RaftError| #[trigger]
                call_ensures(L::last_index, (logs,), Err::<u64, RaftError>(e)) && step_text(
                    "failed to get last log index: "@,
                    e,
                    text@,
                )
            ||| recorded_term(stable) == 0 && call_ensures(
                L::last_index,
                (logs,),
                Ok::<u64, RaftError>(0),
            ) && exists|e: RaftError| #[trigger]
                call_ensures(N::list, (snaps,), Err::<Vec<SnapshotMeta>, RaftError>(e))
                    && step_text("failed to list snapshots: "@, e, text@)
        },
        Err(_) => false,
    }
}

/// Returns true if the server has any existing state (current term, log
/// entries, or snapshots).
pub fn has_existing_state<L: LogStore, S: StableStore, N: SnapshotStore>(
    logs: &L,
    stable: &S,
    snaps: &N,
) -> (r: Result<bool>)
    ensures
        state_answered(logs, stable, snaps, r),
{
    // Make sure we don't have a current term.
    let key = CURRENT_TERM_KEY.as_bytes();
    match stable.get_u64(key) {
        Ok(Some(current_term)) => {
            if current_term > 0 {
                return Ok(true);
            }
        },
        Ok(None) => {},
        Err(e) => {
            assert(number_unread(*stable, key_bytes(CURRENT_TERM_KEY), e));
            return Err(failed_step("failed to read current term: ", &e));
        },
    }
    // Make sure we have an empty log.
    let last_index: u64 = match logs.last_index() {
        Ok(last_index) => last_index,
        Err(e) => {
            return Err(failed_step("failed to get last log index: ", &e));
        },
    };
    if last_index > 0 {
        return Ok(true);
    }
    // Make sure we have no snapshots.
    let snapshots = match snaps.list() {
        Ok(snapshots) => snapshots,
        Err(e) => {
            return Err(failed_step("failed to list snapshots: ", &e));
        },
    };
    Ok(snapshots.len() > 0)
}

/// A recorded term is existing state: a server that has one is never found to
/// be without state.
pub proof fn law_recorded_term_is_state<L: LogStore, S: StableStore, N: SnapshotStore>(
    logs: &L,
    stable: &S,
    snaps: &N,
    found: bool,
)
    requires
        recorded_term(stable) > 0,
        state_answered(logs, stable, snaps, Ok(found)),
    ensures
        found,
{
}

/// The entry with which a cluster begins.
pub open spec fn first_entry(data: Seq<u8>) -> LogView {
    LogView { index: 1, term: 1, log_type: LogType::Configuration, data, ..blank_log() }
}

/// What initializing stores without state comes to: the first term is
/// recorded, and then the first entry stored, each as far as the store takes
/// it and the configuration could be encoded.
pub open spec fn begins<L: LogStore, S: StableStore>(
    logs: L,
    stable: S,
    encoded: Result<Vec<u8>>,
    r: Result<()>,
    logs_now: L,
    stable_now: S,
) -> bool {
    exists|set: Result<()>| #[trigger]
        number_answered(stable, key_bytes(CURRENT_TERM_KEY), 1, set) && match set {
            Err(e) => {
                &&& r matches Err(RaftError::Other(text)) && step_text(
                    "failed to save current term: "@,
                    e,
                    text@,
                )
                &&& logs_now == logs
            },
            Ok(()) => {
                &&& stable_now.numbers() == stable.numbers().insert(
                    key_bytes(CURRENT_TERM_KEY),
                    1,
                )
                &&& match encoded {
                    Err(e) => r == Result::<()>::Err(e) && logs_now == logs,
                    Ok(data) => exists|stored: Result<()>| #[trigger]
                        entry_answered(logs, first_entry(data@), stored) && match stored {
                            Err(e) => r matches Err(RaftError::Other(text)) && step_text(
                                "failed to append configuration entry to log: "@,
                                e,
                                text@,
                            ),
                            Ok(()) => r is Ok && written_as(
                                logs,
                                logs.entries().insert(1, first_entry(data@)),
                                logs_now,
                            ),
                        },
                }
            },
        }
}

/// What initializing a server's storage comes to: the stores before and after,
/// and the answer. Nothing is written where the configurations have a fault,
/// where the state cannot be read, or where there is some.
pub open spec fn bootstraps<L: LogStore, S: StableStore, N: SnapshotStore>(
    conf: ConfigView,
    logs: L,
    stable: S,
    snaps: &N,
    servers: Seq<ServerView>,
    encoded: Result<Vec<u8>>,
    r: Result<()>,
    logs_now: L,
    stable_now: S,
) -> bool {
    if let Some(text) = config_fault(conf) {
        &&& r matches Err(RaftError::Configuration(m)) && m@ == text
        &&& logs_now == logs
        &&& stable_now == stable
    } else if !valid_servers(servers) {
        &&& r matches Err(RaftError::Configuration(m)) && first_fault(servers, m@)
        &&& logs_now == logs
        &&& stable_now == stable
    } else {
        exists|state: Result<bool>| #[trigger]
            state_answered(&logs, &stable, snaps, state) && match state {
                Err(e) => {
                    &&& r == Result::<()>::Err(e)
                    &&& logs_now == logs
                    &&& stable_now == stable
                },
                Ok(found) => if found {
                    &&& r matches Err(e) && e is CantBootstrap
                    &&& logs_now == logs
                    &&& stable_now == stable
                } else {
                    begins(logs, stable, encoded, r, logs_now, stable_now)
                },
            }
    }
}

/// A cluster begins once: where a server's storage was initialized, another
/// attempt is refused and writes nothing. Only where the recorded term cannot
/// be read does the attempt fail with that instead.
pub proof fn law_second_bootstrap_is_refused<L: LogStore, S: StableStore, N: SnapshotStore>(
    conf: ConfigView,
    logs: L,
    stable: S,
    snaps: &N,
    servers: Seq<ServerView>,
    encoded: Result<Vec<u8>>,
    first: Result<()>,
    logs_now: L,
    stable_now: S,
    conf_again: ConfigView,
    snaps_again: &N,
    servers_again: Seq<ServerView>,
    encoded_again: Result<Vec<u8>>,
    second: Result<()>,
    logs_after: L,
    stable_after: S,
)
    requires
        bootstraps(conf, logs, stable, snaps, servers, encoded, first, logs_now, stable_now),
        first is Ok,
        bootstraps(
            conf_again,
            logs_now,
            stable_now,
            snaps_again,
            servers_again,
            encoded_again,
            second,
            logs_after,
            stable_after,
        ),
        config_fault(conf_again) is None,
        valid_servers(servers_again),
    ensures
        recorded_term(&stable_now) == 1,
        second matches Err(refusal) && (refusal is CantBootstrap || (refusal matches RaftError::Other(
            text,
        ) && exists|e: RaftError| #[trigger]
            number_unread(stable_now, key_bytes(CURRENT_TERM_KEY), e) && step_text(
                "failed to read current term: "@,
                e,
                text@,
            ))),
        logs_after == logs_now,
        stable_after == stable_now,
{
    let state = choose|state: Result<bool>| #[trigger]
        state_answered(&logs_now, &stable_now, snaps_again, state) && match state {
            Err(e) => {
                &&& second == Result::<()>::Err(e)
                &&& logs_after == logs_now
                &&& stable_after == stable_now
            },
            Ok(found) => if found {
                &&& second matches Err(e) && e is CantBootstrap
                &&& logs_after == logs_now
                &&& stable_after == stable_now
            } else {
                begins(logs_now, stable_now, encoded_again, second, logs_after, stable_after)
            },
        };
    assert(recorded_term(&stable_now) == 1);
    if let Ok(found) = state {
        law_recorded_term_is_state(&logs_now, &stable_now, snaps_again, found);
    }
}

/// Where state was found it is found again, so that a refused attempt to
/// initialize a server's storage, which writes nothing, stays refused. The
/// stores are taken to answer the same question alike.
pub proof fn law_found_state_is_found_again<L: LogStore, S: StableStore, N: SnapshotStore>(
    logs: &L,
    stable: &S,
    snaps: &N,
    again: bool,
)
    requires
        state_answered(logs, stable, snaps, Ok(true)),
        state_answered(logs, stable, snaps, Ok(again)),
        forall|a: u64, b: u64|
            #![trigger call_ensures(L::last_index, (logs,), Ok::<u64, RaftError>(a)), call_ensures(L::last_index, (logs,), Ok::<u64, RaftError>(b))]
            call_ensures(L::last_index, (logs,), Ok::<u64, RaftError>(a)) && call_ensures(
                L::last_index,
                (logs,),
                Ok::<u64, RaftError>(b),
            ) ==> a == b,
        forall|a: Vec<SnapshotMeta>, b: Vec<SnapshotMeta>|
            #![trigger call_ensures(N::list, (snaps,), Ok::<Vec<SnapshotMeta>, RaftError>(a)), call_ensures(N::list, (snaps,), Ok::<Vec<SnapshotMeta>, RaftError>(b))]
            call_ensures(N::list, (snaps,), Ok::<Vec<SnapshotMeta>, RaftError>(a))
                && call_ensures(N::list, (snaps,), Ok::<Vec<SnapshotMeta>, RaftError>(b))
                ==> a@.len() == b@.len(),
    ensures
        again,
{
}

/// Initializes a server's storage with the given cluster configuration,
/// `encoded` as a log entry carries it. Only callable at the beginning of
/// time for the cluster, with an identical configuration listing all Voter
/// servers on every participant.
pub fn bootstrap_cluster<L: LogStore, S: StableStore, N: SnapshotStore>(
    conf: &Config,
    logs: &mut L,
    stable: &mut S,
    snaps: &N,
    configuration: &Configuration,
    encoded: Result<Vec<u8>>,
) -> (r: Result<()>)
    ensures
        bootstraps(
            conf@,
            *old(logs),
            *old(stable),
            snaps,
            configuration@,
            encoded,
            r,
            *final(logs),
            *final(stable),
        ),
{
    // Validate the Raft server config.
    match conf.validate() {
        Ok(()) => {},
        Err(e) => {
            return Err(e);
        },
    }
    // Sanity check the Raft peer configuration.
    match check_configuration(configuration) {
        Ok(()) => {},
        Err(e) => {
            return Err(e);
        },
    }
    // Make sure the cluster is in a clean state.
    let state = has_existing_state(logs, stable, snaps);
    match state {
        Ok(found) => {
            if found {
                return Err(RaftError::CantBootstrap);
            }
        },
        Err(e) => {
            return Err(e);
        },
    }
    // Set current term to 1.
    let key = CURRENT_TERM_KEY.as_bytes();
    let set = stable.set_u64(key, 1);
    assert(number_answered(*old(stable), key_bytes(CURRENT_TERM_KEY), 1, set));
    match set {
        Ok(()) => {},
        Err(e) => {
            return Err(failed_step("failed to save current term: ", &e));
        },
    }
    // Append the configuration entry to the log.
    let data = match encoded {
        Ok(data) => data,
        Err(e) => {
            return Err(e);
        },
    };
    let entry = Log {
        index: 1,
        term: 1,
        log_type: LogType::Configuration,
        data,
        extensions: Vec::new(),
        appended_at: None,
    };
    assert(entry@ =~= first_entry(data@));
    let first = &entry;
    let stored = logs.store_log(first);
    assert(entry_answered(*old(logs), first_entry(data@), stored));
    match stored {
        Ok(()) => Ok(()),
        Err(e) => Err(failed_step("failed to append configuration entry to log: ", &e)),
    }
}

/// A raft node, as its clients see it.
#[derive(Debug)]
pub struct Raft {
    pub core: RaftCore,
}

/// The node as it is before a snapshot is adopted: a follower in the recorded
/// term, with the last entry of its log.
pub open spec fn loaded(
    conf: ConfigView,
    local_addr: Seq<char>,
    term: u64,
    stored: Map<u64, LogView>,
    last_index: u64,
) -> NodeView {
    let n = with_term(fresh_node(conf, local_addr), term);
    if last_index > 0 {
        with_last_log(n, stored[last_index].index, stored[last_index].term)
    } else {
        with_last_log(n, 0, 0)
    }
}

/// Whether a node is `n` after it looked for snapshots: the newest one that can
/// be restored is adopted, if there are any. The traces are those of the
/// machine, before and after.
pub open spec fn adopts<R, N: SnapshotStore>(
    before: NodeView,
    snaps: &N,
    metas: Seq<SnapshotMeta>,
    n: NodeView,
    machine: Trace<R, N::Reader>,
    machine_now: Trace<R, N::Reader>,
) -> bool {
    if metas.len() == 0 {
        n == before && machine_now == machine
    } else if before.conf.no_snapshot_restore_on_start {
        n == adopted(before, metas[0]@) && machine_now == machine
    } else {
        exists|k: int|
            0 <= k < metas.len() && n == adopted(before, (#[trigger] metas[k])@)
                && restored_from(machine, snaps, metas, k, machine_now)
    }
}

/// Whether a node starts as `n`: it adopts a snapshot, if there are any, and
/// then the configurations of the entries that follow it.
pub open spec fn starts_as<
    R,
    N: SnapshotStore,
    D: Fn(&Vec<u8>) -> Option<Configuration>,
>(
    before: NodeView,
    stored: Map<u64, LogView>,
    snaps: &N,
    metas: Seq<SnapshotMeta>,
    decode: &D,
    n: NodeView,
    machine: Trace<R, N::Reader>,
    machine_now: Trace<R, N::Reader>,
) -> bool {
    exists|m: NodeView| #[trigger]
        adopts(before, snaps, metas, m, machine, machine_now) && scanned_as(m, stored, decode, n)
}

/// Whether the scan of a node's log for configurations fails because of an
/// entry that the log store does not give.
pub open spec fn scan_fails<L: LogStore>(n: NodeView, logs: L, f: Fatal) -> bool {
    unread_in(logs, f) && (f matches Fatal::LogUnread(index, _) && settled_index(n) < index
        <= n.shared.last_log.0)
}

/// Why a node did not start, where its configuration is valid: what is on
/// record, the end of the log or the list of snapshots could not be read, as
/// the store itself says, or there are snapshots and none could be restored.
pub open spec fn start_failure<R, L: LogStore, S: StableStore, N: SnapshotStore>(
    conf: ConfigView,
    logs: &L,
    stable: &S,
    snaps: &N,
    e: RaftError,
    machine: Trace<R, N::Reader>,
    machine_now: Trace<R, N::Reader>,
) -> bool {
    ||| {
        &&& call_ensures(N::list, (snaps,), Err::<Vec<SnapshotMeta>, RaftError>(e))
        &&& machine_now == machine
    }
    ||| e matches RaftError::Other(text) && machine_now == machine && {
        ||| exists|c: RaftError| #[trigger]
            number_unread(*stable, key_bytes(CURRENT_TERM_KEY), c) && step_text(
                "failed to load current term: "@,
                c,
                text@,
            )
        ||| exists|c: RaftError| #[trigger]
            call_ensures(L::last_index, (logs,), Err::<u64, RaftError>(c)) && step_text(
                "failed to find last log: "@,
                c,
                text@,
            )
        ||| exists|last_index: u64, c: RaftError|
            {
                &&& last_index > 0
                &&& call_ensures(L::last_index, (logs,), Ok::<u64, RaftError>(last_index))
                &&& #[trigger] call_ensures(
                    L::get_log,
                    (logs, last_index),
                    Err::<Log, RaftError>(c),
                )
                &&& step_text(
                    "failed to get last log at index "@ + decimal(last_index as nat) + ": "@,
                    c,
                    text@,
                )
            }
    }
    ||| e matches RaftError::Other(text) && text@ == "failed to load any existing snapshots"@
        && !conf.no_snapshot_restore_on_start && exists|metas: Vec<SnapshotMeta>| #[trigger]
        call_ensures(N::list, (snaps,), Ok::<Vec<SnapshotMeta>, RaftError>(metas)) && metas@.len()
            > 0 && restored_from_none(machine, snaps, metas@, machine_now)
}

/// Whether a node is `n` after the configurations of its unsettled entries.
pub open spec fn scanned_as<D: Fn(&Vec<u8>) -> Option<Configuration>>(
    before: NodeView,
    stored: Map<u64, LogView>,
    decode: &D,
    n: NodeView,
) -> bool {
    exists|decoded: Seq<Option<Configuration>>| #[trigger]
        decodes_all(decode, unsettled_entries(before, stored), decoded) && n == with_log_entries(
            before,
            unsettled_entries(before, stored),
            decoded_views(decoded),
        )
}

/// Constructs a new Raft node, restoring any persisted state (current term,
/// log, snapshot, configurations). `decode` makes a configuration of the data
/// of a configuration entry.
pub fn new_raft<
    F: FSM,
    L: LogStore,
    S: StableStore,
    N: SnapshotStore<Reader = F::Reader>,
    D: Fn(&Vec<u8>) -> Option<Configuration>,
>(
    conf: Config,
    local_addr: ServerAddress,
    fsm: &mut F,
    logs: &L,
    stable: &mut S,
    snaps: &N,
    decode: &D,
) -> (r: std::result::Result<Raft, StartError>)
    requires
        forall|data: &Vec<u8>| #[trigger] call_requires(decode, (data,)),
    ensures
        config_fault(conf@) matches Some(text) ==> (r matches Err(
            StartError::Failed(RaftError::Configuration(m)),
        ) && m@ == text) && *final(stable) == *old(stable) && final(fsm).trace() == old(
            fsm,
        ).trace(),
        r matches Ok(raft) ==> {
            &&& config_fault(conf@) is None
            &&& recorded_term(final(stable)) == recorded_term(old(stable))
            &&& exists|last_index: u64, metas: Vec<SnapshotMeta>|
                #![trigger call_ensures(L::last_index, (logs,), Ok::<u64, RaftError>(last_index)), call_ensures(N::list, (snaps,), Ok::<Vec<SnapshotMeta>, RaftError>(metas))]
                {
                    &&& call_ensures(L::last_index, (logs,), Ok::<u64, RaftError>(last_index))
                    &&& call_ensures(N::list, (snaps,), Ok::<Vec<SnapshotMeta>, RaftError>(metas))
                    &&& starts_as(
                        loaded(
                            conf@,
                            local_addr@,
                            recorded_term(old(stable)),
                            logs.entries(),
                            last_index,
                        ),
                        logs.entries(),
                        snaps,
                        metas@,
                        decode,
                        raft.core@,
                        old(fsm).trace(),
                        final(fsm).trace(),
                    )
                }
        },
        config_fault(conf@) is None ==> (r matches Err(StartError::Failed(e)) ==> start_failure(
            conf@,
            logs,
            old(stable),
            snaps,
            e,
            old(fsm).trace(),
            final(fsm).trace(),
        )),
        r matches Err(StartError::Fatal(f)) ==> config_fault(conf@) is None && {
            ||| term_unsaved(*old(stable), recorded_term(old(stable)), f)
            ||| exists|last_index: u64, metas: Vec<SnapshotMeta>, m: NodeView|
                #![trigger call_ensures(L::last_index, (logs,), Ok::<u64, RaftError>(last_index)), call_ensures(N::list, (snaps,), Ok::<Vec<SnapshotMeta>, RaftError>(metas)), scan_fails(m, *logs, f)]
                {
                    &&& call_ensures(L::last_index, (logs,), Ok::<u64, RaftError>(last_index))
                    &&& call_ensures(N::list, (snaps,), Ok::<Vec<SnapshotMeta>, RaftError>(metas))
                    &&& adopts(
                        loaded(
                            conf@,
                            local_addr@,
                            recorded_term(old(stable)),
                            logs.entries(),
                            last_index,
                        ),
                        snaps,
                        metas@,
                        m,
                        old(fsm).trace(),
                        final(fsm).trace(),
                    )
                    &&& scan_fails(m, *logs, f)
                }
        },
{
    // Validate the configuration.
    match conf.validate() {
        Ok(()) => {},
        Err(e) => {
            return Err(StartError::Failed(e));
        },
    }
    // Try to restore the current term.
    let key = CURRENT_TERM_KEY.as_bytes();
    let current_term: u64 = match stable.get_u64(key) {
        Ok(Some(term)) => term,
        Ok(None) => 0,
        Err(e) => {
            assert(number_unread(*stable, key_bytes(CURRENT_TERM_KEY), e));
            return Err(StartError::Failed(failed_step("failed to load current term: ", &e)));
        },
    };
    // Read the index of the last log entry.
    let last_index: u64 = match logs.last_index() {
        Ok(last_index) => last_index,
        Err(e) => {
            return Err(StartError::Failed(failed_step("failed to find last log: ", &e)));
        },
    };
    // Get the last log entry.
    let last_log = if last_index > 0 {
        match logs.get_log(last_index) {
            Ok(log) => log,
            Err(e) => {
                let mut step = "failed to get last log at index ".to_owned();
                push_decimal(&mut step, last_index as u128);
                step.append(": ");
                return Err(StartError::Failed(failed_step(step.as_str(), &e)));
            },
        }
    } else {
        Log::default()
    };
    let mut core = RaftCore::new(conf, local_addr);
    // Restore the current term and the last log.
    match core.set_current_term(stable, current_term) {
        Ok(()) => {},
        Err(f) => {
            return Err(StartError::Fatal(f));
        },
    }
    core.shared.set_last_log(last_log.index, last_log.term);
    let ghost before = core@;
    assert(before =~= loaded(
        conf@,
        local_addr@,
        recorded_term(old(stable)),
        logs.entries(),
        last_index,
    ));
    // Attempt to restore a snapshot if there are any.
    let metas = match snaps.list() {
        Ok(metas) => metas,
        Err(e) => {
            return Err(StartError::Failed(e));
        },
    };
    match core.restore_snapshot(fsm, snaps, &metas) {
        Ok(()) => {},
        Err(e) => {
            return Err(StartError::Failed(e));
        },
    }
    let ghost settled = core@;
    assert(adopts(before, snaps, metas@, settled, old(fsm).trace(), fsm.trace()));
    // Scan through the log for any configuration change entries.
    match core.scan_configurations(logs, decode) {
        Ok(()) => {},
        Err(f) => {
            assert(scan_fails(settled, *logs, f));
            return Err(StartError::Fatal(f));
        },
    }
    proof {
        assert(scanned_as(settled, logs.entries(), decode, core@));
        assert(starts_as(
            before,
            logs.entries(),
            snaps,
            metas@,
            decode,
            core@,
            old(fsm).trace(),
            fsm.trace(),
        ));
    }
    Ok(Raft { core })
}

/// How many servers of a membership are not the given one.
pub open spec fn peer_count(servers: Seq<ServerView>, local: Seq<char>) -> nat
    decreases servers.len(),
{
    if servers.len() == 0 {
        0
    } else {
        peer_count(servers.drop_last(), local) + if servers.last().id != local {
            1nat
        } else {
            0nat
        }
    }
}

/// Basic operational statistics, as names and texts.
pub open spec fn statistics(n: NodeView, membership: Seq<char>) -> Seq<(Seq<char>, Seq<char>)> {
    seq![
        ("state"@, state_name(n.shared.state)),
        ("term"@, decimal(n.shared.current_term as nat)),
        ("last_log_index"@, decimal(n.shared.last_log.0 as nat)),
        ("last_log_term"@, decimal(n.shared.last_log.1 as nat)),
        ("commit_index"@, decimal(n.shared.commit_index as nat)),
        ("applied_index"@, decimal(n.shared.last_applied as nat)),
        ("last_snapshot_index"@, decimal(n.shared.last_snapshot.0 as nat)),
        ("last_snapshot_term"@, decimal(n.shared.last_snapshot.1 as nat)),
        ("protocol_version"@, "3"@),
        ("latest_configuration_index"@, decimal(n.readable_index as nat)),
        ("latest_configuration"@, membership),
        ("num_peers"@, decimal(peer_count(n.readable, n.local_id))),
    ]
}

/// What a list of names and texts says, one by one.
pub open spec fn text_pairs(pairs: Seq<(String, String)>) -> Seq<(Seq<char>, Seq<char>)> {
    pairs.map_values(|p: (String, String)| (p.0@, p.1@))
}

/// Appends a name with a number.
fn push_number(out: &mut Vec<(String, String)>, name: &str, value: u64)
    ensures
        text_pairs(final(out)@) == text_pairs(old(out)@).push((name@, decimal(value as nat))),
{
    let mut text = String::new();
    push_decimal(&mut text, value as u128);
    assert(text@ =~= decimal(value as nat));
    out.push((name.to_owned(), text));
    assert(text_pairs(out@) =~= text_pairs(old(out)@).push((name@, decimal(value as nat))));
}

/// Appends a name with a text.
fn push_text(out: &mut Vec<(String, String)>, name: &str, value: String)
    ensures
        text_pairs(final(out)@) == text_pairs(old(out)@).push((name@, value@)),
{
    out.push((name.to_owned(), value));
    assert(text_pairs(out@) =~= text_pairs(old(out)@).push((name@, value@)));
}

impl Raft {
    /// The current state of this node.
    pub fn state(&self) -> (r: RaftState)
        ensures
            r == self.core@.shared.state,
    {
        self.core.shared.state()
    }

    /// The current leader's address, or empty if unknown.
    pub fn leader(&self) -> (r: ServerAddress)
        ensures
            r@ == self.core@.leader_addr,
    {
        self.core.leader_with_id().0
    }

    /// The current leader's address and ID, or empty strings if unknown.
    pub fn leader_with_id(&self) -> (r: (ServerAddress, ServerID))
        ensures
            r.0@ == self.core@.leader_addr,
            r.1@ == self.core@.leader_id,
    {
        self.core.leader_with_id()
    }

    /// The current term.
    pub fn current_term(&self) -> (r: u64)
        ensures
            r == self.core@.shared.current_term,
    {
        self.core.shared.current_term()
    }

    /// The last index in stable storage (log or snapshot).
    pub fn last_index(&self) -> (r: u64)
        ensures
            r == self.core@.shared.spec_last_index(),
    {
        self.core.shared.last_index()
    }

    /// The highest log entry known to be committed.
    pub fn commit_index(&self) -> (r: u64)
        ensures
            r == self.core@.shared.commit_index,
    {
        self.core.shared.commit_index()
    }

    /// The highest log entry applied to the FSM.
    pub fn applied_index(&self) -> (r: u64)
        ensures
            r == self.core@.shared.last_applied,
    {
        self.core.shared.last_applied()
    }

    /// The last time we had contact from the leader (or won an election);
    /// `None` if there was never any contact.
    pub fn last_contact(&self) -> (r: Option<Instant>)
        ensures
            r == self.core@.shared.last_contact,
    {
        self.core.shared.last_contact_time()
    }

    /// The local server ID of this node.
    pub fn local_id(&self) -> (r: ServerID)
        ensures
            r@ == self.core@.local_id,
    {
        self.core.local_id.clone()
    }

    /// The local address of this node.
    pub fn local_addr(&self) -> (r: ServerAddress)
        ensures
            r@ == self.core@.local_addr,
    {
        self.core.local_addr.clone()
    }

    /// Returns the latest configuration in use, with its index. It may not
    /// yet be committed.
    pub fn get_configuration(&self) -> (r: ConfigurationValue)
        ensures
            r.configuration@ == self.core@.readable,
            r.index == self.core@.readable_index,
    {
        self.core.latest_configuration()
    }

    /// How many servers of the latest configuration are not this node.
    fn num_peers(&self) -> (r: u64)
        ensures
            r == peer_count(self.core@.readable, self.core@.local_id),
    {
        let conf = &self.core.latest_configuration.configuration;
        let ghost servers = conf@;
        let mut count: u64 = 0;
        let mut i: usize = 0;
        assert(servers.take(0) =~= Seq::empty());
        while i < conf.servers.len()
            invariant
                i <= conf.servers@.len(),
                servers == conf@,
                count <= i,
                count == peer_count(servers.take(i as int), self.core@.local_id),
            decreases conf.servers@.len() - i,
        {
            assert(servers.take(i + 1).drop_last() =~= servers.take(i as int));
            assert(servers.take(i + 1).last() == conf.servers@[i as int]@);
            if !same_text(conf.servers[i].id.as_str(), self.core.local_id.as_str()) {
                count += 1;
            }
            i += 1;
        }
        assert(servers.take(i as int) =~= servers);
        count
    }

    /// Basic operational statistics; `membership` is the latest configuration
    /// as text.
    pub fn stats(&self, membership: String) -> (r: Vec<(String, String)>)
        ensures
            text_pairs(r@) == statistics(self.core@, membership@),
    {
        let shared = &self.core.shared;
        let mut out: Vec<(String, String)> = Vec::new();
        push_text(&mut out, "state", shared.state().name());
        push_number(&mut out, "term", shared.current_term());
        push_number(&mut out, "last_log_index", shared.last_log_index());
        push_number(&mut out, "last_log_term", shared.last_log_term());
        push_number(&mut out, "commit_index", shared.commit_index());
        push_number(&mut out, "applied_index", shared.last_applied());
        push_number(&mut out, "last_snapshot_index", shared.last_snapshot_index());
        push_number(&mut out, "last_snapshot_term", shared.last_snapshot_term());
        push_text(&mut out, "protocol_version", "3".to_owned());
        push_number(&mut out, "latest_configuration_index", self.core.latest_configuration.index);
        push_text(&mut out, "latest_configuration", membership);
        push_number(&mut out, "num_peers", self.num_peers());
        assert(text_pairs(out@) =~= statistics(self.core@, membership@));
        out
    }

    /// The request to apply a log entry. Only `data` and `extensions` are
    /// taken from the submitted log.
    pub fn apply_log(log: Log, ticket: u64) -> (r: crate::apply::LogFuture)
        ensures
            r@ == (crate::apply::FutureView {
                log: LogView { data: log.data@, extensions: log.extensions@, ..blank_log() },
                ticket: Some(ticket),
            }),
    {
        crate::apply::LogFuture {
            log: Log {
                index: 0,
                term: 0,
                log_type: LogType::Command,
                data: log.data,
                extensions: log.extensions,
                appended_at: None,
            },
            ticket: Some(ticket),
        }
    }

    /// The request to apply a command.
    pub fn apply(cmd: &[u8], ticket: u64) -> (r: crate::apply::LogFuture)
        ensures
            r@ == (crate::apply::FutureView {
                log: LogView { data: cmd@, ..blank_log() },
                ticket: Some(ticket),
            }),
    {
        let mut log = Log::default();
        log.data = vstd::slice::slice_to_vec(cmd);
        Self::apply_log(log, ticket)
    }

    /// The request that is answered once all preceding operations have been
    /// applied to the FSM.
    pub fn barrier(ticket: u64) -> (r: crate::apply::LogFuture)
        ensures
            r@ == (crate::apply::FutureView {
                log: LogView { log_type: LogType::Barrier, ..blank_log() },
                ticket: Some(ticket),
            }),
    {
        let mut log = Log::default();
        log.log_type = LogType::Barrier;
        crate::apply::LogFuture { log, ticket: Some(ticket) }
    }

    /// The entry that is committed after a restore: once it is applied, the
    /// followers have got the restored snapshot.
    pub fn restore_noop(ticket: u64) -> (r: crate::apply::LogFuture)
        ensures
            r@ == (crate::apply::FutureView {
                log: LogView { log_type: LogType::Noop, ..blank_log() },
                ticket: Some(ticket),
            }),
    {
        let mut log = Log::default();
        log.log_type = LogType::Noop;
        crate::apply::LogFuture { log, ticket: Some(ticket) }
    }

    /// The request to add a voting server to the cluster configuration.
    /// `prev_index`, if nonzero, only allows the change if the previous
    /// configuration index matches.
    pub fn add_voter(id: ServerID, address: ServerAddress, prev_index: u64) -> (r:
        ConfigurationChangeRequest)
        ensures
            r == (ConfigurationChangeRequest {
                command: ConfigurationChangeCommand::AddVoter,
                server_id: id,
                server_address: address,
                prev_index,
            }),
    {
        ConfigurationChangeRequest {
            command: ConfigurationChangeCommand::AddVoter,
            server_id: id,
            server_address: address,
            prev_index,
        }
    }

    /// The request to add a nonvoting server to the cluster configuration.
    pub fn add_nonvoter(id: ServerID, address: ServerAddress, prev_index: u64) -> (r:
        ConfigurationChangeRequest)
        ensures
            r == (ConfigurationChangeRequest {
                command: ConfigurationChangeCommand::AddNonvoter,
                server_id: id,
                server_address: address,
                prev_index,
            }),
    {
        ConfigurationChangeRequest {
            command: ConfigurationChangeCommand::AddNonvoter,
            server_id: id,
            server_address: address,
            prev_index,
        }
    }

    /// The request to remove a server from the cluster configuration.
    pub fn remove_server(id: ServerID, prev_index: u64) -> (r: ConfigurationChangeRequest)
        ensures
            r.command == ConfigurationChangeCommand::RemoveServer,
            r.server_id@ == id@,
            r.server_address@.len() == 0,
            r.prev_index == prev_index,
    {
        ConfigurationChangeRequest {
            command: ConfigurationChangeCommand::RemoveServer,
            server_id: id,
            server_address: String::new(),
            prev_index,
        }
    }

    /// The request to demote a voter to a nonvoter.
    pub fn demote_voter(id: ServerID, prev_index: u64) -> (r: ConfigurationChangeRequest)
        ensures
            r.command == ConfigurationChangeCommand::DemoteVoter,
            r.server_id@ == id@,
            r.server_address@.len() == 0,
            r.prev_index == prev_index,
    {
        ConfigurationChangeRequest {
            command: ConfigurationChangeCommand::DemoteVoter,
            server_id: id,
            server_address: String::new(),
            prev_index,
        }
    }

    /// Whether leadership may be asked to go to the given server, or to any
    /// where none is given: not to this node itself.
    pub fn check_transfer(&self, id: &Option<ServerID>) -> (r: Result<()>)
        ensures
            (id matches Some(target) && target@ == self.core@.local_id) ==> (r matches Err(
                RaftError::Other(text),
            ) && text@ == "cannot transfer leadership to itself"@),
            !(id matches Some(target) && target@ == self.core@.local_id) ==> r is Ok,
    {
        match id {
            Some(target) => {
                if same_text(target.as_str(), self.core.local_id.as_str()) {
                    return Err(
                        RaftError::Other("cannot transfer leadership to itself".to_owned()),
                    );
                }
            },
            None => {},
        }
        Ok(())
    }

    /// Shuts down this node; tells whether this call was the first to.
    pub fn shutdown(&mut self) -> (r: bool)
        ensures
            r == !old(self).core@.shutdown,
            final(self).core@ == if old(self).core@.shutdown {
                old(self).core@
            } else {
                NodeView {
                    shared: RaftSharedState {
                        state: RaftState::Shutdown,
                        ..old(self).core@.shared
                    },
                    shutdown: true,
                    ..old(self).core@
                }
            },
    {
        self.core.initiate_shutdown()
    }

    /// Why a request of a client is refused in the current role, if it is.
    pub fn refusal(&self, request: ClientRequest) -> (r: Option<RaftError>)
        ensures
            r == refused(self.core@.shared.state, request),
    {
        match request {
            ClientRequest::Bootstrap => Some(RaftError::CantBootstrap),
            ClientRequest::ReadConfigurations => None,
            _ => match self.core.shared.state() {
                RaftState::Leader => None,
                _ => Some(RaftError::NotLeader),
            },
        }
    }
}

/// A request of a client to the main loop.
#[derive(Debug, Clone, Copy, PartialEq, Eq, Structural)]
pub enum ClientRequest {
    Apply,
    ChangeConfiguration,
    VerifyLeader,
    Restore,
    TransferLeadership,
    Bootstrap,
    ReadConfigurations,
}

/// Why a request is refused in a role: only a leader serves them, but every
/// node tells its configurations, and a running one is never bootstrapped.
pub open spec fn refused(state: RaftState, request: ClientRequest) -> Option<RaftError> {
    match request {
        ClientRequest::Bootstrap => Some(RaftError::CantBootstrap),
        ClientRequest::ReadConfigurations => None,
        _ => if state == RaftState::Leader {
            None
        } else {
            Some(RaftError::NotLeader)
        },
    }
}

/// What became of handing a request to the main loop.
#[derive(Debug, Clone, Copy, PartialEq, Eq, Structural)]
pub enum Enqueue {
    Sent,
    /// The main loop takes no requests any more.
    Closed,
    ShutDown,
    TimedOut,
}

/// How long to try to hand over a request: forever where no timeout is given.
pub fn enqueue_limit(timeout: Duration) -> (r: Option<Duration>)
    ensures
        timeout@ == 0 ==> r is None,
        timeout@ > 0 ==> (r matches Some(limit) && limit@ == timeout@),
{
    if timeout.is_zero() {
        None
    } else {
        Some(timeout)
    }
}

/// Whether a request was handed over.
pub fn enqueued(outcome: Enqueue) -> (r: Result<()>)
    ensures
        r == match outcome {
            Enqueue::Sent => Ok::<(), RaftError>(()),
            Enqueue::Closed => Err(RaftError::RaftShutdown),
            Enqueue::ShutDown => Err(RaftError::RaftShutdown),
            Enqueue::TimedOut => Err(RaftError::EnqueueTimeout),
        },
{
    match outcome {
        Enqueue::Sent => Ok(()),
        Enqueue::Closed => Err(RaftError::RaftShutdown),
        Enqueue::ShutDown => Err(RaftError::RaftShutdown),
        Enqueue::TimedOut => Err(RaftError::EnqueueTimeout),
    }
}

/// A cluster that was bootstrapped starts with the given configuration: a
/// node that finds the first entry alone in its log, and no snapshot, knows
/// that configuration as its latest one.
pub proof fn law_bootstrapped_node_knows_the_cluster(
    conf: ConfigView,
    local_addr: Seq<char>,
    stored: Map<u64, LogView>,
    data: Seq<u8>,
    servers: Seq<ServerView>,
)
    requires
        stored.contains_key(1),
        stored[1] == first_entry(data),
    ensures
        ({
            let n = loaded(conf, local_addr, 1, stored, 1);
            let started = with_log_entries(n, unsettled_entries(n, stored), seq![Some(servers)]);
            &&& unsettled_entries(n, stored) == seq![first_entry(data)]
            &&& started.configurations.latest == servers
            &&& started.configurations.latest_index == 1
            &&& started.readable == servers
            &&& started.shared.current_term == 1
            &&& started.shared.last_log == (1u64, 1u64)
            &&& started.shared.state == RaftState::Follower
        }),
{
    let n = loaded(conf, local_addr, 1, stored, 1);
    let entries = unsettled_entries(n, stored);
    assert(entries =~= seq![first_entry(data)]);
    reveal_with_fuel(with_log_entries, 2);
    assert(entries.drop_last() =~= Seq::empty());
}

} // verus!
