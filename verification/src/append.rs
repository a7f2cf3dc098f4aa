//! A follower's side of replication: entries from the leader are checked
//! against the log, stored, and committed.

use crate::apply::{all_known, applies, unread_in, with_applied, Applying, LogFuture};
use crate::configuration::{Configuration, ServerAddress, ServerID, ServerView};
use crate::error::RaftError;
use crate::log::{
    law_last_written_log_is_held, law_other_indexes_keep_their_logs, log_views,
    removal_answered, same_entry, storing_answered, with_logs, without_range, written_as, Log,
    LogStore, LogView,
};
use crate::raft::{
    decoded_view, latest_is_committed, own_header, recorded_candidate, recorded_term,
    recorded_vote_term, term_unsaved, with_contact, with_latest, with_leader, with_log_entry, with_state,
    with_term, Fatal, NodeView, RaftCore,
};
use crate::stable::StableStore;
use crate::state::{RaftSharedState, RaftState};
use crate::time::Instant;
use crate::transport::{AppendEntriesRequest, AppendEntriesResponse, AppendResponseView};
use std::collections::HashMap;
use vstd::prelude::*;

verus! {

/// Whether a message from a leader of this term makes the node a follower in
/// that term: the term is newer, or the node has another role that was not
/// asked of it.
pub open spec fn steps_down_for(n: NodeView, term: u64) -> bool {
    term > n.shared.current_term || (n.shared.state != RaftState::Follower && !n.from_transfer)
}

/// The node after a message from the leader of a term that is not older.
pub open spec fn followed(n: NodeView, term: u64, addr: Seq<char>, id: Seq<char>) -> NodeView {
    with_leader(
        if steps_down_for(n, term) {
            with_term(with_state(n, RaftState::Follower), term)
        } else {
            n
        },
        addr,
        id,
    )
}

/// The term of the entry before the new ones, where it is known.
pub open spec fn previous_term(
    n: NodeView,
    stored: Map<u64, LogView>,
    index: u64,
) -> Option<u64> {
    if index == n.shared.spec_last_entry().0 {
        Some(n.shared.spec_last_entry().1)
    } else if stored.contains_key(index) {
        Some(stored[index].term)
    } else {
        None
    }
}

/// Whether the log holds the entry that the new ones follow on.
pub open spec fn previous_matches(
    n: NodeView,
    stored: Map<u64, LogView>,
    index: u64,
    term: u64,
) -> bool {
    index == 0 || previous_term(n, stored, index) == Some(term)
}

/// Whether an entry of this index and term is in the log already.
pub open spec fn held(stored: Map<u64, LogView>, last_log: u64, entry: LogView) -> bool {
    &&& entry.index <= last_log
    &&& stored.contains_key(entry.index)
    &&& stored[entry.index].term == entry.term
}

/// Whether `k` is the position of the first entry that is not in the log.
pub open spec fn is_first_new(
    stored: Map<u64, LogView>,
    last_log: u64,
    entries: Seq<LogView>,
    k: int,
) -> bool {
    &&& 0 <= k <= entries.len()
    &&& forall|j: int| 0 <= j < k ==> held(stored, last_log, #[trigger] entries[j])
    &&& k < entries.len() ==> !held(stored, last_log, entries[k])
}

/// Whether the entry at `k` is to be compared with one of the log: those
/// before it are held, and the log reaches as far.
pub open spec fn compared_at(
    stored: Map<u64, LogView>,
    last_log: u64,
    entries: Seq<LogView>,
    k: int,
) -> bool {
    &&& 0 <= k < entries.len()
    &&& forall|j: int| 0 <= j < k ==> held(stored, last_log, #[trigger] entries[j])
    &&& entries[k].index <= last_log
}

/// Whether the entry at `k` contradicts one that is in the log.
pub open spec fn conflicts_at(
    stored: Map<u64, LogView>,
    last_log: u64,
    entries: Seq<LogView>,
    k: int,
) -> bool {
    &&& 0 <= k < entries.len()
    &&& entries[k].index <= last_log
    &&& stored.contains_key(entries[k].index)
    &&& stored[entries[k].index].term != entries[k].term
}

/// The log after the entries from `k` on were stored, a conflicting suffix
/// removed first.
pub open spec fn stored_after(
    stored: Map<u64, LogView>,
    last_log: u64,
    entries: Seq<LogView>,
    k: int,
) -> Map<u64, LogView> {
    if k >= entries.len() {
        stored
    } else {
        with_logs(
            if conflicts_at(stored, last_log, entries, k) {
                without_range(stored, entries[k].index, last_log)
            } else {
                stored
            },
            entries.skip(k),
        )
    }
}

/// The node after a conflicting suffix from `index` on was removed: a latest
/// configuration that lay in it gives way to the committed one.
pub open spec fn rolled_back(n: NodeView, index: u64) -> NodeView {
    if index <= n.configurations.latest_index {
        with_latest(n, n.configurations.committed, n.configurations.committed_index)
    } else {
        n
    }
}

/// The configurations that entries carry, where they could be decoded.
pub open spec fn decoded_views(decoded: Seq<Option<Configuration>>) -> Seq<
    Option<Seq<ServerView>>,
> {
    decoded.map_values(|d: Option<Configuration>| decoded_view(d))
}

/// The node after new log entries, in order.
pub open spec fn with_log_entries(
    n: NodeView,
    entries: Seq<LogView>,
    decoded: Seq<Option<Seq<ServerView>>>,
) -> NodeView
    decreases entries.len(),
{
    if entries.len() == 0 {
        n
    } else {
        with_log_entry(
            with_log_entries(n, entries.drop_last(), decoded.drop_last()),
            entries.last(),
            decoded.last(),
        )
    }
}

/// The node with another last log entry.
pub open spec fn with_last_log(n: NodeView, index: u64, term: u64) -> NodeView {
    NodeView { shared: RaftSharedState { last_log: (index, term), ..n.shared }, ..n }
}

/// The node after it stored the entries from `k` on.
pub open spec fn took_entries(
    n: NodeView,
    stored: Map<u64, LogView>,
    entries: Seq<LogView>,
    decoded: Seq<Option<Seq<ServerView>>>,
    k: int,
) -> NodeView {
    if k >= entries.len() {
        n
    } else {
        let m = if conflicts_at(stored, n.shared.last_log.0, entries, k) {
            rolled_back(n, entries[k].index)
        } else {
            n
        };
        with_last_log(
            with_log_entries(m, entries.skip(k), decoded.skip(k)),
            entries.last().index,
            entries.last().term,
        )
    }
}

/// Up to where a follower's log becomes committed, given the leader's commit
/// index: as far as the leader says and the log goes, where that is news.
pub open spec fn commit_target(n: NodeView, leader_commit: u64) -> Option<u64> {
    if leader_commit > 0 && leader_commit > n.shared.commit_index {
        Some(
            if leader_commit <= n.shared.spec_last_index() {
                leader_commit
            } else {
                n.shared.spec_last_index()
            },
        )
    } else {
        None
    }
}

/// Whether a node fails because an entry that the leader committed, and that
/// is to be applied, could not be read.
pub open spec fn commits_unread(n: NodeView, leader_commit: u64, f: Fatal) -> bool {
    &&& f matches Fatal::LogUnread(index, _)
    &&& n.shared.last_applied < index <= leader_commit
    &&& n.shared.commit_index < leader_commit
}

/// The node with another commit index, before the entries are applied.
pub open spec fn with_commit(n: NodeView, index: u64) -> NodeView {
    let m = NodeView { shared: RaftSharedState { commit_index: index, ..n.shared }, ..n };
    if m.configurations.latest_index <= index {
        latest_is_committed(m)
    } else {
        m
    }
}

/// The node after it learned the leader's commit index and applied what is
/// newly committed.
pub open spec fn committed_up_to(n: NodeView, leader_commit: u64) -> NodeView {
    match commit_target(n, leader_commit) {
        Some(index) => if index > n.shared.last_applied {
            with_applied(with_commit(n, index), index)
        } else {
            with_commit(n, index)
        },
        None => n,
    }
}

/// What came of the entries of an append request.
#[derive(Debug, Clone, Copy, PartialEq, Eq, Structural)]
pub enum EntriesOutcome {
    /// The entry of the log that is to be compared with the one at this
    /// position could not be read.
    Unread(usize),
    /// A conflicting suffix, from the entry at this position on, could not
    /// be removed.
    NotCleared(usize),
    /// The entries from this position on could not be stored.
    NotStored(usize),
    /// The entries from this position on are stored; the ones before it were
    /// in the log already.
    Stored(usize),
}

/// What came of an append request.
#[derive(Debug, Clone, Copy, PartialEq, Eq, Structural)]
pub enum AppendOutcome {
    /// The request is from an older term.
    StaleTerm,
    /// The entry before the new ones could not be read.
    PreviousUnread,
    /// The entry before the new ones has another term.
    PreviousDiffers,
    /// The entries were not taken over.
    Refused(EntriesOutcome),
    /// The log agrees with the request; the entries from this position on
    /// were new.
    Appended(usize),
}

/// The answer to an append request, and the work that follows from it.
#[derive(Debug)]
pub struct AppendResult {
    pub response: AppendEntriesResponse,
    pub outcome: AppendOutcome,
    pub applying: Applying,
}

/// How an append request of a leader whose term is not older is met, by
/// outcome: what it says of the request, and the node and log afterwards, the
/// log as far as the store was settled.
pub open spec fn append_effect(
    n: NodeView,
    stored: Map<u64, LogView>,
    req: AppendEntriesRequest,
    decoded: Seq<Option<Seq<ServerView>>>,
    now: Instant,
    outcome: AppendOutcome,
    after: NodeView,
    settled: bool,
    stored_now: Map<u64, LogView>,
) -> bool {
    let f = followed(n, req.term, req.header.addr@, req.header.id@);
    let entries = log_views(req.entries@);
    let last_log = n.shared.last_log.0;
    match outcome {
        AppendOutcome::StaleTerm => after == n && stored_now == stored,
        AppendOutcome::PreviousUnread => {
            &&& req.prev_log_entry > 0
            &&& req.prev_log_entry != n.shared.spec_last_entry().0
            &&& after == f
            &&& stored_now == stored
        },
        AppendOutcome::PreviousDiffers => {
            &&& req.prev_log_entry > 0
            &&& previous_term(n, stored, req.prev_log_entry) matches Some(term)
            &&& term != req.prev_log_term
            &&& after == f
            &&& stored_now == stored
        },
        AppendOutcome::Refused(refusal) => {
            &&& previous_matches(n, stored, req.prev_log_entry, req.prev_log_term)
            &&& entries.len() > 0
            &&& match refusal {
                EntriesOutcome::Unread(k) => {
                    &&& compared_at(stored, last_log, entries, k as int)
                    &&& after == f
                    &&& stored_now == stored
                },
                EntriesOutcome::NotCleared(k) => {
                    &&& is_first_new(stored, last_log, entries, k as int)
                    &&& conflicts_at(stored, last_log, entries, k as int)
                    &&& after == f
                },
                EntriesOutcome::NotStored(k) => {
                    &&& is_first_new(stored, last_log, entries, k as int)
                    &&& k < entries.len()
                    &&& after == if conflicts_at(stored, last_log, entries, k as int) {
                        rolled_back(f, entries[k as int].index)
                    } else {
                        f
                    }
                },
                EntriesOutcome::Stored(k) => false,
            }
        },
        AppendOutcome::Appended(k) => {
            &&& previous_matches(n, stored, req.prev_log_entry, req.prev_log_term)
            &&& is_first_new(stored, last_log, entries, k as int)
            &&& k < entries.len() && entries[k as int].index <= last_log ==> conflicts_at(
                stored,
                last_log,
                entries,
                k as int,
            )
            &&& settled ==> stored_now == stored_after(stored, last_log, entries, k as int)
            &&& after == with_contact(
                committed_up_to(
                    took_entries(f, stored, entries, decoded, k as int),
                    req.leader_commit_index,
                ),
                now,
            )
        },
    }
}

/// Whether the log store fails to give the entry at an index.
pub open spec fn unreadable<L: LogStore>(logs: L, index: u64) -> bool {
    exists|e: RaftError| #[trigger]
        call_ensures(L::get_log, (&logs, index), Err::<Log, RaftError>(e))
}

/// Whether a log store is ready to take the entries from `k` on: as it was, or
/// with a conflicting suffix removed.
pub open spec fn cleared<L: LogStore>(
    logs: L,
    last_log: u64,
    entries: Seq<LogView>,
    k: int,
    now: L,
) -> bool {
    if conflicts_at(logs.entries(), last_log, entries, k) {
        &&& exists|r: Result<(), RaftError>| #[trigger]
            removal_answered(logs, entries[k].index, last_log, r) && r is Ok
        &&& written_as(logs, without_range(logs.entries(), entries[k].index, last_log), now)
    } else {
        now == logs
    }
}

/// Entries that fit are not taken over only where the log store fails: to give
/// an entry, to remove the conflicting suffix, or to take the new entries.
pub open spec fn entries_refused_by_store<L: LogStore>(
    logs: L,
    last_log: u64,
    entries: Seq<LogView>,
    refusal: EntriesOutcome,
) -> bool {
    match refusal {
        EntriesOutcome::Unread(k) => unreadable(logs, entries[k as int].index),
        EntriesOutcome::NotCleared(k) => exists|e: RaftError| #[trigger]
            removal_answered(logs, entries[k as int].index, last_log, Err(e)),
        EntriesOutcome::NotStored(k) => exists|now: L, e: RaftError|
            cleared(logs, last_log, entries, k as int, now) && #[trigger] storing_answered(
                now,
                entries.skip(k as int),
                Err(e),
            ),
        EntriesOutcome::Stored(_) => true,
    }
}

/// An append request that fits is refused only where the log store fails.
pub open spec fn refused_by_store<L: LogStore>(
    logs: L,
    last_log: u64,
    req: AppendEntriesRequest,
    outcome: AppendOutcome,
) -> bool {
    match outcome {
        AppendOutcome::PreviousUnread => unreadable(logs, req.prev_log_entry),
        AppendOutcome::Refused(refusal) => entries_refused_by_store(
            logs,
            last_log,
            log_views(req.entries@),
            refusal,
        ),
        _ => true,
    }
}

/// What an append request leaves on record: a term that was taken up, and the
/// vote as it was.
pub open spec fn append_recorded<S: StableStore>(
    n: NodeView,
    req: AppendEntriesRequest,
    stable: S,
    stable_now: S,
) -> bool {
    &&& recorded_vote_term(&stable_now) == recorded_vote_term(&stable)
    &&& recorded_candidate(&stable_now) == recorded_candidate(&stable)
    &&& recorded_term(&stable_now) == if req.term >= n.shared.current_term && steps_down_for(
        n,
        req.term,
    ) {
        req.term
    } else {
        recorded_term(&stable)
    }
}

/// Whether a node fails over an append request: it cannot record a new term,
/// or a committed entry cannot be read.
pub open spec fn append_fails<L: LogStore, S: StableStore>(
    n: NodeView,
    req: AppendEntriesRequest,
    stable: S,
    logs_now: L,
    f: Fatal,
) -> bool {
    &&& req.term >= n.shared.current_term
    &&& if f is TermNotSaved {
        steps_down_for(n, req.term) && term_unsaved(stable, req.term, f)
    } else {
        commits_unread(n, req.leader_commit_index, f) && unread_in(logs_now, f)
    }
}

/// The answer that goes with an outcome.
pub open spec fn append_answer(
    n: NodeView,
    req: AppendEntriesRequest,
    outcome: AppendOutcome,
) -> AppendResponseView {
    AppendResponseView {
        header: own_header(n),
        term: if outcome is StaleTerm {
            n.shared.current_term
        } else {
            req.term
        },
        last_log: n.shared.spec_last_index(),
        success: outcome is Appended,
        no_retry_backoff: outcome is PreviousUnread || outcome is PreviousDiffers,
    }
}

/// The work for the state machine that goes with an outcome.
pub open spec fn append_work(
    n: NodeView,
    stored: Map<u64, LogView>,
    req: AppendEntriesRequest,
    decoded: Seq<Option<Seq<ServerView>>>,
    outcome: AppendOutcome,
    stored_now: Map<u64, LogView>,
    work: Applying,
) -> bool {
    let f = followed(n, req.term, req.header.addr@, req.header.id@);
    let entries = log_views(req.entries@);
    match outcome {
        AppendOutcome::Appended(k) => {
            let m = took_entries(f, stored, entries, decoded, k as int);
            match commit_target(m, req.leader_commit_index) {
                Some(index) => applies(m, Map::empty(), stored_now, index, work) && all_known(
                    Map::empty(),
                    stored_now,
                    m.shared.last_applied,
                    index,
                ),
                None => work.batches@.len() == 0 && work.answered@.len() == 0,
            }
        },
        _ => work.batches@.len() == 0 && work.answered@.len() == 0,
    }
}

impl RaftCore {
    /// Adopts a leader's term and takes the sender for the leader.
    pub fn follow<S: StableStore>(
        &mut self,
        stable: &mut S,
        term: u64,
        addr: ServerAddress,
        id: ServerID,
    ) -> (r: Result<(), Fatal>)
        ensures
            r is Ok ==> final(self)@ == followed(old(self)@, term, addr@, id@),
            r is Ok ==> recorded_vote_term(final(stable)) == recorded_vote_term(old(stable)),
            r is Ok ==> recorded_candidate(final(stable)) == recorded_candidate(old(stable)),
            r is Ok ==> recorded_term(final(stable)) == if steps_down_for(old(self)@, term) {
                term
            } else {
                recorded_term(old(stable))
            },
            r matches Err(f) ==> term_unsaved(*old(stable), term, f) && steps_down_for(
                old(self)@,
                term,
            ) && final(self)@ == with_state(old(self)@, RaftState::Follower),
    {
        if term > self.shared.current_term() || (self.shared.state() != RaftState::Follower
            && !self.candidate_from_leadership_transfer) {
            self.set_state(RaftState::Follower);
            match self.set_current_term(stable, term) {
                Ok(()) => {},
                Err(f) => {
                    return Err(f);
                },
            }
        }
        self.set_leader(addr, id);
        Ok(())
    }

    /// Takes over the entries of a request: duplicates are skipped, a
    /// conflicting suffix is removed, and the rest is stored. `decoded` holds
    /// for each entry the configuration that its data decodes to, if any.
    fn take_entries<L: LogStore>(
        &mut self,
        logs: &mut L,
        entries: Vec<Log>,
        decoded: &Vec<Option<Configuration>>,
    ) -> (r: EntriesOutcome)
        requires
            entries@.len() == decoded@.len(),
            entries@.len() > 0,
        ensures
            match r {
                EntriesOutcome::Unread(k) => {
                    &&& compared_at(
                        old(logs).entries(),
                        old(self)@.shared.last_log.0,
                        log_views(entries@),
                        k as int,
                    )
                    &&& final(self)@ == old(self)@
                    &&& *final(logs) == *old(logs)
                },
                EntriesOutcome::NotCleared(k) => {
                    &&& is_first_new(
                        old(logs).entries(),
                        old(self)@.shared.last_log.0,
                        log_views(entries@),
                        k as int,
                    )
                    &&& conflicts_at(
                        old(logs).entries(),
                        old(self)@.shared.last_log.0,
                        log_views(entries@),
                        k as int,
                    )
                    &&& final(self)@ == old(self)@
                    &&& exists|s: &mut L, e: RaftError|
                        {
                            &&& *s == *old(logs)
                            &&& #[trigger] call_ensures(
                                L::delete_range,
                                (
                                    s,
                                    log_views(entries@)[k as int].index,
                                    old(self)@.shared.last_log.0,
                                ),
                                Err::<(), RaftError>(e),
                            )
                            &&& *final(s) == *final(logs)
                        }
                },
                EntriesOutcome::NotStored(k) => {
                    &&& k < entries@.len()
                    &&& exists|s: &mut L, v: &Vec<Log>, e: RaftError|
                        {
                            &&& cleared(
                                *old(logs),
                                old(self)@.shared.last_log.0,
                                log_views(entries@),
                                k as int,
                                *s,
                            )
                            &&& log_views(v@) == log_views(entries@).skip(k as int)
                            &&& #[trigger] call_ensures(
                                L::store_logs,
                                (s, v),
                                Err::<(), RaftError>(e),
                            )
                            &&& *final(s) == *final(logs)
                        }
                    &&& is_first_new(
                        old(logs).entries(),
                        old(self)@.shared.last_log.0,
                        log_views(entries@),
                        k as int,
                    )
                    &&& final(self)@ == if conflicts_at(
                        old(logs).entries(),
                        old(self)@.shared.last_log.0,
                        log_views(entries@),
                        k as int,
                    ) {
                        rolled_back(old(self)@, log_views(entries@)[k as int].index)
                    } else {
                        old(self)@
                    }
                },
                EntriesOutcome::Stored(k) => {
                    &&& is_first_new(
                        old(logs).entries(),
                        old(self)@.shared.last_log.0,
                        log_views(entries@),
                        k as int,
                    )
                    &&& k < entries@.len() && log_views(entries@)[k as int].index <= old(
                        self,
                    )@.shared.last_log.0 ==> conflicts_at(
                        old(logs).entries(),
                        old(self)@.shared.last_log.0,
                        log_views(entries@),
                        k as int,
                    )
                    &&& if k < entries@.len() {
                        exists|s: &mut L, v: &Vec<Log>, stored: Result<(), RaftError>|
                            {
                                &&& cleared(
                                    *old(logs),
                                    old(self)@.shared.last_log.0,
                                    log_views(entries@),
                                    k as int,
                                    *s,
                                )
                                &&& log_views(v@) == log_views(entries@).skip(k as int)
                                &&& #[trigger] call_ensures(L::store_logs, (s, v), stored)
                                &&& stored is Ok
                                &&& *final(s) == *final(logs)
                            }
                    } else {
                        *final(logs) == *old(logs)
                    }
                    &&& written_as(
                        *old(logs),
                        stored_after(
                            old(logs).entries(),
                            old(self)@.shared.last_log.0,
                            log_views(entries@),
                            k as int,
                        ),
                        *final(logs),
                    )
                    &&& final(self)@ == took_entries(
                        old(self)@,
                        old(logs).entries(),
                        log_views(entries@),
                        decoded_views(decoded@),
                        k as int,
                    )
                },
            },
            entries_refused_by_store(
                *old(logs),
                old(self)@.shared.last_log.0,
                log_views(entries@),
                r,
            ),
    {
        let ghost views = log_views(entries@);
        let ghost stored = logs.entries();
        let last_log: u64 = self.shared.last_log_index();
        let total: usize = entries.len();
        let mut first_new: usize = 0;
        let mut conflict = false;
        // Find the first entry that is not in the log.
        while first_new < total
            invariant_except_break
                !conflict,
            invariant
                first_new <= total,
                total == entries@.len(),
                views == log_views(entries@),
                last_log == self@.shared.last_log.0,
                self@ == old(self)@,
                *logs == *old(logs),
                stored == logs.entries(),
                stored == old(logs).entries(),
                forall|j: int| 0 <= j < first_new ==> held(stored, last_log, #[trigger] views[j]),
            ensures
                is_first_new(stored, last_log, views, first_new as int),
                conflict ==> conflicts_at(stored, last_log, views, first_new as int),
                !conflict && first_new < total ==> views[first_new as int].index > last_log,
            decreases total - first_new,
        {
            let entry = &entries[first_new];
            assert(views[first_new as int] == entry@);
            if entry.index > last_log {
                break;
            }
            match logs.get_log(entry.index) {
                Ok(store_entry) => {
                    if entry.term != store_entry.term {
                        conflict = true;
                        break;
                    }
                },
                Err(e) => {
                    assert(call_ensures(
                        L::get_log,
                        (&*logs, entry.index),
                        Err::<Log, RaftError>(e),
                    ));
                    return EntriesOutcome::Unread(first_new);
                },
            }
            first_new += 1;
        }
        if first_new >= total {
            return EntriesOutcome::Stored(first_new);
        }
        if conflict {
            let from: u64 = entries[first_new].index;
            assert(from == views[first_new as int].index);
            let removed = logs.delete_range(from, last_log);
            assert(removal_answered(*old(logs), from, last_log, removed));
            match removed {
                Ok(()) => {},
                Err(e) => {
                    assert(exists|s: &mut L|
                        *s == *old(logs) && #[trigger] call_ensures(
                            L::delete_range,
                            (s, from, last_log),
                            Err::<(), RaftError>(e),
                        ) && *final(s) == *logs);
                    return EntriesOutcome::NotCleared(first_new);
                },
            }
            if from <= self.configurations.latest_index {
                let committed = self.configurations.committed.clone();
                let committed_index: u64 = self.configurations.committed_index;
                self.set_latest_configuration(committed, committed_index);
            }
        }
        let ghost base = self@;
        assert(views[first_new as int] == entries@[first_new as int]@);
        // Append the new entries.
        let mut entries = entries;
        let new_entries = entries.split_off(first_new);
        assert(log_views(new_entries@) =~= views.skip(first_new as int));
        assert(cleared(*old(logs), last_log, views, first_new as int, *logs));
        let ghost ready = *logs;
        let given = &new_entries;
        let taken = logs.store_logs(given);
        assert(exists|s: &mut L|
            *s == ready && #[trigger] call_ensures(L::store_logs, (s, given), taken) && *final(s)
                == *logs);
        match taken {
            Ok(()) => {},
            Err(e) => {
                assert(exists|s: &mut L|
                    *s == ready && #[trigger] call_ensures(
                        L::store_logs,
                        (s, given),
                        Err::<(), RaftError>(e),
                    ) && *final(s) == *logs);
                assert(storing_answered(
                    ready,
                    views.skip(first_new as int),
                    Result::<(), RaftError>::Err(e),
                ));
                return EntriesOutcome::NotStored(first_new);
            },
        }
        // Handle any new configuration changes.
        let ghost new_views = views.skip(first_new as int);
        let ghost new_decoded = decoded_views(decoded@).skip(first_new as int);
        let mut i: usize = 0;
        assert(new_views.take(0) =~= Seq::empty());
        while i < new_entries.len()
            invariant
                i <= new_entries@.len(),
                total == decoded@.len(),
                first_new + new_entries@.len() == total,
                views.len() == decoded@.len(),
                new_views == views.skip(first_new as int),
                new_views == log_views(new_entries@),
                new_decoded == decoded_views(decoded@).skip(first_new as int),
                self@ == with_log_entries(
                    base,
                    new_views.take(i as int),
                    new_decoded.take(i as int),
                ),
            decreases new_entries@.len() - i,
        {
            proof {
                assert(new_views.take(i + 1).drop_last() =~= new_views.take(i as int));
                assert(new_decoded.take(i + 1).drop_last() =~= new_decoded.take(i as int));
                assert(new_views.take(i + 1).last() == new_entries@[i as int]@);
                assert(new_decoded.take(i + 1).last() == decoded_view(decoded@[first_new + i]));
            }
            self.process_configuration_log_entry(&new_entries[i], &decoded[first_new + i]);
            i += 1;
        }
        assert(new_views.take(i as int) =~= new_views);
        assert(new_decoded.take(i as int) =~= new_decoded);
        // Update the last log.
        let last = &new_entries[new_entries.len() - 1];
        assert(last@ == views.last());
        self.shared.set_last_log(last.index, last.term);
        EntriesOutcome::Stored(first_new)
    }

    /// Commits as far as the leader says and the log goes, and applies what
    /// is newly committed.
    fn advance_commit<L: LogStore>(&mut self, logs: &L, leader_commit: u64) -> (r: Result<
        Applying,
        Fatal,
    >)
        ensures
            r matches Ok(work) ==> {
                &&& final(self)@ == committed_up_to(old(self)@, leader_commit)
                &&& match commit_target(old(self)@, leader_commit) {
                    Some(index) => applies(
                        old(self)@,
                        Map::empty(),
                        logs.entries(),
                        index,
                        work,
                    ) && all_known(
                        Map::empty(),
                        logs.entries(),
                        old(self)@.shared.last_applied,
                        index,
                    ),
                    None => work.batches@.len() == 0 && work.answered@.len() == 0,
                }
            },
            r matches Err(f) ==> commits_unread(old(self)@, leader_commit, f) && unread_in(
                *logs,
                f,
            ),
    {
        broadcast use vstd::std_specs::hash::group_hash_axioms;

        if leader_commit > 0 && leader_commit > self.shared.commit_index() {
            let last: u64 = self.shared.last_index();
            let idx: u64 = if leader_commit <= last {
                leader_commit
            } else {
                last
            };
            self.shared.set_commit_index(idx);
            if self.configurations.latest_index <= idx {
                self.commit_latest_configuration();
            }
            let none: HashMap<u64, LogFuture> = HashMap::new();
            assert(none@ =~= Map::empty());
            self.process_logs(logs, idx, none)
        } else {
            Ok(Applying { batches: Vec::new(), answered: Vec::new() })
        }
    }

    /// Compares the entry that new ones follow on with the one of the log;
    /// returns why they cannot be taken over, if they cannot.
    fn check_previous<L: LogStore>(&self, logs: &L, index: u64, term: u64) -> (r: Option<
        AppendOutcome,
    >)
        ensures
            match r {
                None => previous_matches(self@, logs.entries(), index, term),
                Some(AppendOutcome::PreviousUnread) => {
                    &&& index > 0
                    &&& index != self@.shared.spec_last_entry().0
                    &&& unreadable(*logs, index)
                },
                Some(AppendOutcome::PreviousDiffers) => {
                    &&& index > 0
                    &&& previous_term(self@, logs.entries(), index) matches Some(held)
                    &&& held != term
                },
                Some(_) => false,
            },
    {
        if index == 0 {
            return None;
        }
        let (last_idx, last_term): (u64, u64) = self.shared.last_entry();
        let previous: u64 = if index == last_idx {
            last_term
        } else {
            match logs.get_log(index) {
                Ok(entry) => entry.term,
                Err(e) => {
                    assert(call_ensures(L::get_log, (logs, index), Err::<Log, RaftError>(e)));
                    return Some(AppendOutcome::PreviousUnread);
                },
            }
        };
        if previous != term {
            return Some(AppendOutcome::PreviousDiffers);
        }
        None
    }

    /// Invoked when we get an AppendEntries call. `decoded` holds for each
    /// entry the configuration that its data decodes to, if any.
    #[verifier::spinoff_prover]
    #[verifier::rlimit(30)]
    pub fn append_entries<L: LogStore, S: StableStore>(
        &mut self,
        logs: &mut L,
        stable: &mut S,
        req: AppendEntriesRequest,
        decoded: &Vec<Option<Configuration>>,
        now: Instant,
    ) -> (r: Result<AppendResult, Fatal>)
        requires
            decoded@.len() == req.entries@.len(),
        ensures
            r matches Ok(done) ==> {
                &&& done.outcome is StaleTerm <==> req.term < old(self)@.shared.current_term
                &&& append_effect(
                    old(self)@,
                    old(logs).entries(),
                    req,
                    decoded_views(decoded@),
                    now,
                    done.outcome,
                    final(self)@,
                    old(logs).settled(),
                    final(logs).entries(),
                )
                &&& done.response@ == append_answer(old(self)@, req, done.outcome)
                &&& append_work(
                    old(self)@,
                    old(logs).entries(),
                    req,
                    decoded_views(decoded@),
                    done.outcome,
                    final(logs).entries(),
                    done.applying,
                )
                &&& refused_by_store(
                    *old(logs),
                    old(self)@.shared.last_log.0,
                    req,
                    done.outcome,
                )
                &&& append_recorded(old(self)@, req, *old(stable), *final(stable))
            },
            r matches Ok(done) ==> match done.outcome {
                AppendOutcome::Refused(EntriesOutcome::NotCleared(k)) => exists|
                    s: &mut L,
                    e: RaftError,
                |
                    #[trigger] call_ensures(
                        L::delete_range,
                        (
                            s,
                            log_views(req.entries@)[k as int].index,
                            old(self)@.shared.last_log.0,
                        ),
                        Err::<(), RaftError>(e),
                    ) && *final(s) == *final(logs),
                AppendOutcome::Refused(EntriesOutcome::NotStored(k)) => exists|
                    s: &mut L,
                    v: &Vec<Log>,
                    e: RaftError,
                |
                    #[trigger] call_ensures(L::store_logs, (s, v), Err::<(), RaftError>(e))
                        && log_views(v@) == log_views(req.entries@).skip(k as int) && *final(s)
                        == *final(logs),
                AppendOutcome::Appended(k) if k < req.entries@.len() => exists|
                    s: &mut L,
                    v: &Vec<Log>,
                    stored: Result<(), RaftError>,
                |
                    {
                        &&& cleared(
                            *old(logs),
                            old(self)@.shared.last_log.0,
                            log_views(req.entries@),
                            k as int,
                            *s,
                        )
                        &&& log_views(v@) == log_views(req.entries@).skip(k as int)
                        &&& #[trigger] call_ensures(L::store_logs, (s, v), stored)
                        &&& stored is Ok
                        &&& *final(s) == *final(logs)
                    },
                _ => *final(logs) == *old(logs),
            },
            r matches Err(f) ==> append_fails(old(self)@, req, *old(stable), *final(logs), f),
    {
        let mut resp = AppendEntriesResponse {
            header: self.rpc_header(),
            term: self.shared.current_term(),
            last_log: self.shared.last_index(),
            success: false,
            no_retry_backoff: false,
        };
        let nothing = Applying { batches: Vec::new(), answered: Vec::new() };
        // Ignore an older term.
        if req.term < self.shared.current_term() {
            return Ok(
                AppendResult {
                    response: resp,
                    outcome: AppendOutcome::StaleTerm,
                    applying: nothing,
                },
            );
        }
        // Adopt a newer term, and follow whoever leads in it.
        match self.follow(stable, req.term, req.header.addr.clone(), req.header.id.clone()) {
            Ok(()) => {},
            Err(f) => {
                return Err(f);
            },
        }
        resp.term = req.term;
        let ghost f = self@;
        // Verify the last log entry.
        match self.check_previous(&*logs, req.prev_log_entry, req.prev_log_term) {
            Some(outcome) => {
                resp.no_retry_backoff = true;
                return Ok(AppendResult { response: resp, outcome, applying: nothing });
            },
            None => {},
        }
        // Process any new entries.
        let leader_commit: u64 = req.leader_commit_index;
        let entries = req.entries;
        let ghost views = log_views(entries@);
        let mut first_new: usize = 0;
        if entries.len() > 0 {
            match self.take_entries(logs, entries, decoded) {
                EntriesOutcome::Stored(k) => {
                    first_new = k;
                },
                refusal => {
                    return Ok(
                        AppendResult {
                            response: resp,
                            outcome: AppendOutcome::Refused(refusal),
                            applying: nothing,
                        },
                    );
                },
            }
        }
        proof {
            let m = took_entries(
                f,
                old(logs).entries(),
                views,
                decoded_views(decoded@),
                first_new as int,
            );
            lemma_took_entries_keeps_progress(
                f,
                old(logs).entries(),
                views,
                decoded_views(decoded@),
                first_new as int,
            );
            assert(self@ == m);
        }
        // Update the commit index.
        match self.advance_commit(logs, leader_commit) {
            Ok(applying) => {
                // Everything went well.
                resp.success = true;
                self.shared.set_last_contact(now);
                Ok(
                    AppendResult {
                        response: resp,
                        outcome: AppendOutcome::Appended(first_new),
                        applying,
                    },
                )
            },
            Err(f) => Err(f),
        }
    }
}

/// Entries that come with strictly increasing indexes.
pub open spec fn increasing(entries: Seq<LogView>) -> bool {
    forall|i: int, j: int|
        0 <= i < j < entries.len() ==> (#[trigger] entries[i]).index < (
        #[trigger] entries[j]).index
}

/// After an accepted request the log holds an entry of the same index and
/// term as each entry of the request; the ones that were new are held as
/// they were sent.
pub proof fn law_accepted_entries_are_held(
    stored: Map<u64, LogView>,
    last_log: u64,
    entries: Seq<LogView>,
    k: int,
    j: int,
)
    requires
        increasing(entries),
        is_first_new(stored, last_log, entries, k),
        0 <= j < entries.len(),
    ensures
        stored_after(stored, last_log, entries, k).contains_key(entries[j].index),
        stored_after(stored, last_log, entries, k)[entries[j].index].term == entries[j].term,
        j >= k ==> stored_after(stored, last_log, entries, k)[entries[j].index] == entries[j],
{
    let new = entries.skip(k);
    let base = if conflicts_at(stored, last_log, entries, k) {
        without_range(stored, entries[k].index, last_log)
    } else {
        stored
    };
    if k < entries.len() {
        if j >= k {
            assert(new[j - k] == entries[j]);
            assert forall|i: int| j - k < i < new.len() implies (#[trigger] new[i]).index
                != new[j - k].index by {
                assert(entries[j].index < entries[i + k].index);
            }
            law_last_written_log_is_held(base, new, j - k);
        } else {
            assert(held(stored, last_log, entries[j]));
            assert forall|i: int| 0 <= i < new.len() implies (#[trigger] new[i]).index
                != entries[j].index by {
                assert(entries[j].index < entries[i + k].index);
            }
            assert(entries[j].index < entries[k].index);
            law_other_indexes_keep_their_logs(base, new, entries[j].index);
        }
    } else {
        assert(held(stored, last_log, entries[j]));
    }
}

/// An accepted request leaves every entry below the first new one as it was.
pub proof fn law_earlier_entries_are_kept(
    stored: Map<u64, LogView>,
    last_log: u64,
    entries: Seq<LogView>,
    k: int,
    index: u64,
)
    requires
        increasing(entries),
        is_first_new(stored, last_log, entries, k),
        k < entries.len() ==> index < entries[k].index,
    ensures
        stored_after(stored, last_log, entries, k).contains_key(index) == stored.contains_key(
            index,
        ),
        stored.contains_key(index) ==> stored_after(stored, last_log, entries, k)[index]
            == stored[index],
{
    if k < entries.len() {
        let new = entries.skip(k);
        let base = if conflicts_at(stored, last_log, entries, k) {
            without_range(stored, entries[k].index, last_log)
        } else {
            stored
        };
        assert forall|i: int| 0 <= i < new.len() implies (#[trigger] new[i]).index != index by {
            if i > 0 {
                assert(entries[k].index < entries[i + k].index);
            }
            assert(new[i] == entries[i + k]);
        }
        law_other_indexes_keep_their_logs(base, new, index);
    }
}

/// A request that was accepted once brings nothing new: where it comes again
/// no entry is stored and none is removed.
pub proof fn law_repeated_request_changes_nothing(
    stored: Map<u64, LogView>,
    last_log: u64,
    entries: Seq<LogView>,
    k: int,
    last_log_now: u64,
)
    requires
        increasing(entries),
        is_first_new(stored, last_log, entries, k),
        entries.len() > 0 ==> entries.last().index <= last_log_now,
    ensures
        is_first_new(
            stored_after(stored, last_log, entries, k),
            last_log_now,
            entries,
            entries.len() as int,
        ),
        stored_after(
            stored_after(stored, last_log, entries, k),
            last_log_now,
            entries,
            entries.len() as int,
        ) == stored_after(stored, last_log, entries, k),
{
    let now = stored_after(stored, last_log, entries, k);
    assert forall|j: int| 0 <= j < entries.len() implies held(
        now,
        last_log_now,
        #[trigger] entries[j],
    ) by {
        law_accepted_entries_are_held(stored, last_log, entries, k, j);
        if j < entries.len() - 1 {
            assert(entries[j].index < entries[entries.len() - 1].index);
        }
    }
}

/// Where the log reaches as far as what is committed, the commit index never
/// goes back, and it never passes the end of the log.
pub proof fn law_follower_commit_advances_within_log(n: NodeView, leader_commit: u64)
    requires
        n.shared.commit_index <= n.shared.spec_last_index(),
    ensures
        n.shared.commit_index <= committed_up_to(n, leader_commit).shared.commit_index
            <= n.shared.spec_last_index(),
        committed_up_to(n, leader_commit).shared.last_applied >= n.shared.last_applied,
{
}

/// Configuration entries touch the membership only.
pub proof fn lemma_with_log_entries_keeps_shared(
    n: NodeView,
    entries: Seq<LogView>,
    decoded: Seq<Option<Seq<ServerView>>>,
)
    ensures
        with_log_entries(n, entries, decoded).shared == n.shared,
    decreases entries.len(),
{
    if entries.len() > 0 {
        lemma_with_log_entries_keeps_shared(n, entries.drop_last(), decoded.drop_last());
    }
}

/// Taking over entries touches the log and the membership only.
pub proof fn lemma_took_entries_keeps_progress(
    n: NodeView,
    stored: Map<u64, LogView>,
    entries: Seq<LogView>,
    decoded: Seq<Option<Seq<ServerView>>>,
    k: int,
)
    ensures
        took_entries(n, stored, entries, decoded, k).shared.commit_index == n.shared.commit_index,
        took_entries(n, stored, entries, decoded, k).shared.last_applied == n.shared.last_applied,
        took_entries(n, stored, entries, decoded, k).shared.current_term == n.shared.current_term,
        took_entries(n, stored, entries, decoded, k).shared.state == n.shared.state,
        took_entries(n, stored, entries, decoded, k).shared.last_snapshot
            == n.shared.last_snapshot,
        took_entries(n, stored, entries, decoded, k).leader_addr == n.leader_addr,
        took_entries(n, stored, entries, decoded, k).leader_id == n.leader_id,
        took_entries(n, stored, entries, decoded, k).from_transfer == n.from_transfer,
        took_entries(n, stored, entries, decoded, k).conf == n.conf,
{
    if k < entries.len() {
        let m = if conflicts_at(stored, n.shared.last_log.0, entries, k) {
            rolled_back(n, entries[k].index)
        } else {
            n
        };
        lemma_with_log_entries_keeps_shared(m, entries.skip(k), decoded.skip(k));
        lemma_with_log_entries_keeps_leader(m, entries.skip(k), decoded.skip(k));
    }
}

/// Whatever an append request comes to, the term never goes back; and unless
/// it is stale, the node is in the request's term afterwards and takes the
/// sender for the leader.
pub proof fn law_append_never_lowers_the_term(
    n: NodeView,
    stored: Map<u64, LogView>,
    req: AppendEntriesRequest,
    decoded: Seq<Option<Seq<ServerView>>>,
    now: Instant,
    outcome: AppendOutcome,
    after: NodeView,
    stored_now: Map<u64, LogView>,
)
    requires
        append_effect(n, stored, req, decoded, now, outcome, after, true, stored_now),
        outcome is StaleTerm <==> req.term < n.shared.current_term,
    ensures
        after.shared.current_term >= n.shared.current_term,
        !(outcome is StaleTerm) ==> after.shared.current_term == req.term,
        !(outcome is StaleTerm) ==> after.leader_addr == req.header.addr@ && after.leader_id
            == req.header.id@,
        outcome is StaleTerm ==> after == n,
{
    let f = followed(n, req.term, req.header.addr@, req.header.id@);
    let entries = log_views(req.entries@);
    match outcome {
        AppendOutcome::Appended(k) => {
            let m = if conflicts_at(stored, f.shared.last_log.0, entries, k as int) {
                rolled_back(f, entries[k as int].index)
            } else {
                f
            };
            lemma_with_log_entries_keeps_shared(
                m,
                entries.skip(k as int),
                decoded.skip(k as int),
            );
            lemma_with_log_entries_keeps_leader(
                m,
                entries.skip(k as int),
                decoded.skip(k as int),
            );
        },
        _ => {},
    }
}

/// Configuration entries do not change who the node is and whom it follows.
pub proof fn lemma_with_log_entries_keeps_leader(
    n: NodeView,
    entries: Seq<LogView>,
    decoded: Seq<Option<Seq<ServerView>>>,
)
    ensures
        with_log_entries(n, entries, decoded).leader_addr == n.leader_addr,
        with_log_entries(n, entries, decoded).leader_id == n.leader_id,
        with_log_entries(n, entries, decoded).from_transfer == n.from_transfer,
        with_log_entries(n, entries, decoded).local_id == n.local_id,
        with_log_entries(n, entries, decoded).local_addr == n.local_addr,
        with_log_entries(n, entries, decoded).conf == n.conf,
    decreases entries.len(),
{
    if entries.len() > 0 {
        lemma_with_log_entries_keeps_leader(n, entries.drop_last(), decoded.drop_last());
    }
}

/// A request is accepted exactly where it is owed: it is not stale, the log
/// holds the entry that it follows on, and no read or write failed.
pub proof fn law_refusals_have_a_reason(
    n: NodeView,
    stored: Map<u64, LogView>,
    req: AppendEntriesRequest,
    decoded: Seq<Option<Seq<ServerView>>>,
    now: Instant,
    outcome: AppendOutcome,
    after: NodeView,
    stored_now: Map<u64, LogView>,
)
    requires
        append_effect(n, stored, req, decoded, now, outcome, after, true, stored_now),
        outcome is StaleTerm <==> req.term < n.shared.current_term,
    ensures
        append_answer(n, req, outcome).success ==> {
            &&& req.term >= n.shared.current_term
            &&& previous_matches(n, stored, req.prev_log_entry, req.prev_log_term)
        },
        outcome is PreviousDiffers ==> !previous_matches(
            n,
            stored,
            req.prev_log_entry,
            req.prev_log_term,
        ),
        req.term >= n.shared.current_term && previous_matches(
            n,
            stored,
            req.prev_log_entry,
            req.prev_log_term,
        ) ==> outcome is Appended || outcome is PreviousUnread || outcome is Refused,
        req.term >= n.shared.current_term && req.prev_log_entry == 0 && req.entries@.len() == 0
            ==> outcome is Appended,
{
}

/// Writing entries of increasing indexes: what is held afterwards.
pub proof fn lemma_with_logs_run(base: Map<u64, LogView>, run: Seq<LogView>)
    requires
        increasing(run),
    ensures
        forall|i: u64| #[trigger]
            with_logs(base, run).contains_key(i) <==> base.contains_key(i) || exists|x: int|
                0 <= x < run.len() && (#[trigger] run[x]).index == i,
        forall|x: int|
            0 <= x < run.len() ==> with_logs(base, run)[(#[trigger] run[x]).index] == run[x],
        forall|i: u64|
            (forall|x: int| 0 <= x < run.len() ==> (#[trigger] run[x]).index != i)
                ==> #[trigger] with_logs(base, run)[i] == base[i],
    decreases run.len(),
{
    if run.len() > 0 {
        let front = run.drop_last();
        let before = with_logs(base, front);
        assert forall|i: int, j: int| 0 <= i < j < front.len() implies (#[trigger] front[i]).index
            < (#[trigger] front[j]).index by {
            assert(run[i].index < run[j].index);
        }
        lemma_with_logs_run(base, front);
        assert forall|i: u64| #[trigger]
            with_logs(base, run).contains_key(i) <==> base.contains_key(i) || exists|x: int|
                0 <= x < run.len() && (#[trigger] run[x]).index == i by {
            if before.contains_key(i) && !base.contains_key(i) {
                let x = choose|x: int| 0 <= x < front.len() && (#[trigger] front[x]).index == i;
                assert(run[x].index == i);
            }
            if exists|x: int| 0 <= x < run.len() && (#[trigger] run[x]).index == i {
                let x = choose|x: int| 0 <= x < run.len() && (#[trigger] run[x]).index == i;
                if x < front.len() {
                    assert(front[x].index == i);
                }
            }
            if i == run.last().index {
                assert(run[run.len() - 1].index == i);
            }
        }
        assert forall|x: int| 0 <= x < run.len() implies with_logs(base, run)[(
        #[trigger] run[x]).index] == run[x] by {
            if x < front.len() {
                assert(front[x] == run[x]);
                assert(run[x].index < run[run.len() - 1].index);
            }
        }
        assert forall|i: u64|
            (forall|x: int| 0 <= x < run.len() ==> (#[trigger] run[x]).index
                != i) implies #[trigger] with_logs(base, run)[i] == base[i] by {
            assert(run[run.len() - 1].index != i);
            assert forall|x: int| 0 <= x < front.len() implies (#[trigger] front[x]).index != i by {
                assert(run[x].index != i);
            }
        }
    }
}

/// A log without holes, up to its last index.
pub open spec fn without_holes(log: Map<u64, LogView>, last: u64) -> bool {
    &&& forall|i: u64, j: u64|
        #![trigger log.contains_key(i), log.contains_key(j)]
        log.contains_key(i) && i <= j <= last ==> log.contains_key(j)
    &&& forall|i: u64| #[trigger] log.contains_key(i) ==> 1 <= i <= last
}

/// Two logs match: where they hold entries of one term at an index, they hold
/// the same entry there, and the same entries at all indexes below that both
/// reach down to.
pub open spec fn logs_match(a: Map<u64, LogView>, b: Map<u64, LogView>) -> bool {
    forall|i: u64, j: u64|
        #![trigger a[i], b[j]]
        j <= i && a.contains_key(i) && b.contains_key(i) && a[i].term == b[i].term
            && a.contains_key(j) && b.contains_key(j) ==> same_entry(a[j], b[j])
}

/// A request holds a stretch of the sender's log, after the entry that it
/// names as the previous one.
pub open spec fn stretch_of(
    log: Map<u64, LogView>,
    previous: u64,
    previous_term: u64,
    entries: Seq<LogView>,
) -> bool {
    &&& previous + entries.len() <= u64::MAX
    &&& log.contains_key(previous) ==> log[previous].term == previous_term
    &&& forall|x: int|
        0 <= x < entries.len() ==> {
            &&& (#[trigger] entries[x]).index == previous + 1 + x
            &&& log.contains_key(entries[x].index)
            &&& same_entry(log[entries[x].index], entries[x])
        }
}

/// An accepted request keeps logs matching: where the sender's log and the
/// node's own match, without holes, and the node's last entry is as it is
/// noted, they match after the node has taken over a stretch of the sender's.
pub proof fn law_append_keeps_logs_matching(
    n: NodeView,
    stored: Map<u64, LogView>,
    sender: Map<u64, LogView>,
    sender_last: u64,
    previous: u64,
    previous_term_sent: u64,
    entries: Seq<LogView>,
    k: int,
)
    requires
        without_holes(stored, n.shared.last_log.0),
        without_holes(sender, sender_last),
        stored.contains_key(n.shared.last_log.0) ==> stored[n.shared.last_log.0].term
            == n.shared.last_log.1,
        previous <= n.shared.last_log.0,
        logs_match(sender, stored),
        stretch_of(sender, previous, previous_term_sent, entries),
        previous_matches(n, stored, previous, previous_term_sent),
        is_first_new(stored, n.shared.last_log.0, entries, k),
        k < entries.len() && entries[k].index <= n.shared.last_log.0 ==> conflicts_at(
            stored,
            n.shared.last_log.0,
            entries,
            k,
        ),
    ensures
        logs_match(sender, stored_after(stored, n.shared.last_log.0, entries, k)),
        k < entries.len() ==> without_holes(
            stored_after(stored, n.shared.last_log.0, entries, k),
            entries.last().index,
        ),
{
    let last = n.shared.last_log.0;
    let after = stored_after(stored, last, entries, k);
    if k < entries.len() {
        let first = entries[k].index;
        let new = entries.skip(k);
        let base = if conflicts_at(stored, last, entries, k) {
            without_range(stored, first, last)
        } else {
            stored
        };
        assert forall|i: int, j: int| 0 <= i < j < new.len() implies (#[trigger] new[i]).index < (
        #[trigger] new[j]).index by {
            assert(entries[k + i].index < entries[k + j].index);
        }
        lemma_with_logs_run(base, new);
        assert forall|i: u64| #[trigger] after.contains_key(i) <==> (i < first
            && stored.contains_key(i)) || first <= i <= entries.last().index by {
            if first <= i <= entries.last().index {
                assert(new[i - first].index == i);
            }
        }
        assert forall|i: u64| first <= i <= entries.last().index implies same_entry(
            #[trigger] after[i],
            sender[i],
        ) && sender.contains_key(i) by {
            assert(new[i - first] == entries[k + (i - first)]);
            assert(new[i - first].index == i);
        }
        assert forall|i: u64| i < first && stored.contains_key(i) implies #[trigger] after[i]
            == stored[i] by {}
        // The entries below the first new one agree.
        assert forall|j: u64|
            j < first && stored.contains_key(j) && sender.contains_key(j) implies same_entry(
            #[trigger] sender[j],
            stored[j],
        ) by {
            if j > previous {
                let x = j - previous - 1;
                assert(entries[x].index == j);
                assert(held(stored, last, entries[x]));
            } else if previous > 0 {
                assert(stored.contains_key(previous));
                assert(sender.contains_key(j) && sender.contains_key(entries[k].index));
                assert(sender.contains_key(previous));
                assert(stored[previous].term == previous_term_sent);
                assert(sender[previous].term == stored[previous].term);
            }
        }
        assert forall|i: u64, j: u64|
            #![trigger sender[i], after[j]]
            j <= i && sender.contains_key(i) && after.contains_key(i) && sender[i].term
                == after[i].term && sender.contains_key(j) && after.contains_key(
                j,
            ) implies same_entry(sender[j], after[j]) by {
            if j < first {
                assert(after[j] == stored[j]);
            }
        }
        assert(first <= last + 1) by {
            if k > 0 {
                assert(held(stored, last, entries[k - 1]));
            }
        }
        assert(without_holes(after, entries.last().index)) by {
            assert forall|i: u64, j: u64|
                #![trigger after.contains_key(i), after.contains_key(j)]
                after.contains_key(i) && i <= j <= entries.last().index implies after.contains_key(
                j,
            ) by {
                if j < first {
                    assert(stored.contains_key(i));
                    assert(j <= last);
                    assert(stored.contains_key(j));
                }
            }
        }
    }
}

} // verus!
