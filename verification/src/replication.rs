//! Log replication from the leader to a single follower: what is sent, what
//! is made of the replies, and how sending is paced.

use crate::append::stretch_of;
use crate::commitment::{recalculated, Commitment, CommitmentView};
use crate::configuration::{Server, ServerView};
use crate::error::{RaftError, Result};
use crate::log::{log_views, same_entry, Log, LogStore, LogView};
use crate::observer::{
    FailedHeartbeatObservation, ObservationData, ObservationView, ResumedHeartbeatObservation,
};
use crate::raft::{own_header, with_observation, NodeView, RaftCore};
use crate::snapshot::SnapshotMeta;
use crate::time::{
    backoff, backoff_doublings, capped_exponential_backoff, doubled_span, doubling_fits, Duration,
    Instant,
};
use crate::transport::{
    AppendEntriesRequest, AppendEntriesResponse, InstallSnapshotRequest, InstallSnapshotResponse,
};
use vstd::prelude::*;

verus! {

/// Maximum backoff scale factor.
pub const MAX_FAILURE_SCALE: u64 = 12;

/// Base backoff wait between failed RPCs, in milliseconds.
pub const FAILURE_WAIT_MILLIS: u64 = 10;

/// State for replicating to a single follower during a leader's term.
#[derive(Debug)]
pub struct FollowerReplication {
    /// Network address and ID of the remote follower.
    pub peer: Server,
    /// The term of this leader, included in AppendEntries requests.
    pub current_term: u64,
    /// Index of the next log entry to send to the follower, which may fall
    /// past the end of the log.
    pub next_index: u64,
    /// Updated whenever any response is received from the follower
    /// (successful or not); used by the leader lease check.
    pub last_contact: Instant,
    /// Verifications to vote on upon receipt of an acknowledgement.
    pub notify: Vec<u64>,
    /// Number of failed RPCs since the last success, used for backoff.
    pub failures: u64,
}

/// What a [`FollowerReplication`] holds.
#[verifier::ext_equal]
pub struct ReplicationView {
    pub peer: ServerView,
    pub current_term: u64,
    pub next_index: u64,
    pub last_contact: Instant,
    pub notify: Seq<u64>,
    pub failures: u64,
}

impl View for FollowerReplication {
    type V = ReplicationView;

    open spec fn view(&self) -> ReplicationView {
        ReplicationView {
            peer: self.peer@,
            current_term: self.current_term,
            next_index: self.next_index,
            last_contact: self.last_contact,
            notify: self.notify@,
            failures: self.failures,
        }
    }
}

/// The tickets other than the given one, in the same order.
pub open spec fn other_tickets(tickets: Seq<u64>, ticket: u64) -> Seq<u64>
    decreases tickets.len(),
{
    if tickets.len() == 0 {
        tickets
    } else if tickets.last() == ticket {
        other_tickets(tickets.drop_last(), ticket)
    } else {
        other_tickets(tickets.drop_last(), ticket).push(tickets.last())
    }
}

/// The entries from `first` up to `last`, in order.
pub open spec fn entries_between(stored: Map<u64, LogView>, first: int, last: int) -> Seq<LogView>
    recommends
        first >= 0,
{
    Seq::new(
        if last >= first {
            (last - first + 1) as nat
        } else {
            0
        },
        |i: int| stored[(first + i) as u64],
    )
}

/// The last index of a request that starts at `next`: a full batch, or up to
/// the end of the log.
pub open spec fn batch_end(next: u64, max_append_entries: usize, last: u64) -> int {
    let full = next + max_append_entries - 1;
    if full <= last {
        full
    } else {
        last as int
    }
}

/// The entry that the entries from `next` on follow: none for the first, the
/// snapshot where it ends just there, or else the stored one.
pub open spec fn previous_entry(
    n: NodeView,
    stored: Map<u64, LogView>,
    next: u64,
) -> (u64, u64) {
    if next == 1 {
        (0, 0)
    } else if next - 1 == n.shared.last_snapshot.0 {
        n.shared.last_snapshot
    } else {
        (stored[(next - 1) as u64].index, stored[(next - 1) as u64].term)
    }
}

/// Whether a request carries the entries from `next` on, up to `last` at most.
pub open spec fn is_append_request(
    n: NodeView,
    stored: Map<u64, LogView>,
    term: u64,
    next: u64,
    last: u64,
    req: AppendEntriesRequest,
) -> bool {
    let end = batch_end(next, n.conf.max_append_entries, last);
    &&& req.header@ == own_header(n)
    &&& req.term == term
    &&& (req.prev_log_entry, req.prev_log_term) == previous_entry(n, stored, next)
    &&& log_views(req.entries@) == entries_between(stored, next as int, end)
    &&& req.leader_commit_index == n.shared.commit_index
    &&& forall|i: u64| next <= i <= end ==> #[trigger] stored.contains_key(i)
    &&& next != 1 && next - 1 != n.shared.last_snapshot.0 ==> stored.contains_key(
        (next - 1) as u64,
    )
}

/// Whether the entry at an index is read for a request that starts at `next`:
/// it is the previous one or one of those that are sent.
pub open spec fn reads_entry(n: NodeView, next: u64, last: u64, index: u64) -> bool {
    index == next - 1 || next <= index <= batch_end(next, n.conf.max_append_entries, last)
}

/// Sets up an AppendEntries request with the entries from `next_index` on, up
/// to `last_index` at most. Where an entry cannot be read, the store says why.
pub fn setup_append_entries<L: LogStore>(
    core: &RaftCore,
    logs: &L,
    term: u64,
    next_index: u64,
    last_index: u64,
) -> (r: Result<AppendEntriesRequest>)
    requires
        next_index >= 1,
        next_index + core@.conf.max_append_entries <= u64::MAX,
    ensures
        r matches Ok(req) ==> is_append_request(
            core@,
            logs.entries(),
            term,
            next_index,
            last_index,
            req,
        ),
        next_index > last_index && (next_index == 1 || next_index - 1
            == core@.shared.last_snapshot.0) ==> r is Ok,
        r matches Err(e) ==> exists|i: u64|
            reads_entry(core@, next_index, last_index, i) && #[trigger] call_ensures(
                L::get_log,
                (logs, i),
                Err::<Log, RaftError>(e),
            ),
{
    let (prev_log_entry, prev_log_term): (u64, u64) = match previous_log(core, logs, next_index) {
        Ok(previous) => previous,
        Err(e) => {
            return Err(e);
        },
    };
    let entries = match new_logs(core, logs, next_index, last_index) {
        Ok(entries) => entries,
        Err(e) => {
            return Err(e);
        },
    };
    Ok(
        AppendEntriesRequest {
            header: core.rpc_header(),
            term,
            prev_log_entry,
            prev_log_term,
            entries,
            leader_commit_index: core.shared.commit_index(),
        },
    )
}

/// The index and term of the entry before `next_index`.
fn previous_log<L: LogStore>(core: &RaftCore, logs: &L, next_index: u64) -> (r: Result<(u64, u64)>)
    requires
        next_index >= 1,
    ensures
        r matches Ok(previous) ==> {
            &&& previous == previous_entry(core@, logs.entries(), next_index)
            &&& next_index != 1 && next_index - 1 != core@.shared.last_snapshot.0
                ==> logs.entries().contains_key((next_index - 1) as u64)
        },
        next_index == 1 || next_index - 1 == core@.shared.last_snapshot.0 ==> r is Ok,
        r matches Err(e) ==> call_ensures(
            L::get_log,
            (logs, (next_index - 1) as u64),
            Err::<Log, RaftError>(e),
        ),
{
    // Guard for the first index, since there is no 0 log entry. Guard
    // against the previous index being a snapshot as well.
    let last_snapshot: (u64, u64) = core.shared.last_snapshot();
    if next_index == 1 {
        return Ok((0, 0));
    }
    if next_index - 1 == last_snapshot.0 {
        return Ok(last_snapshot);
    }
    match logs.get_log(next_index - 1) {
        Ok(log) => Ok((log.index, log.term)),
        Err(e) => Err(e),
    }
}

/// The entries which should be appended for a request.
fn new_logs<L: LogStore>(core: &RaftCore, logs: &L, next_index: u64, last_index: u64) -> (r: Result<
    Vec<Log>,
>)
    requires
        next_index >= 1,
        next_index + core@.conf.max_append_entries <= u64::MAX,
    ensures
        r matches Ok(entries) ==> {
            let end = batch_end(next_index, core@.conf.max_append_entries, last_index);
            &&& log_views(entries@) == entries_between(logs.entries(), next_index as int, end)
            &&& forall|i: u64| next_index <= i <= end ==> #[trigger] logs.entries().contains_key(i)
        },
        next_index > last_index ==> r is Ok,
        r matches Err(e) ==> exists|i: u64|
            next_index <= i <= batch_end(next_index, core@.conf.max_append_entries, last_index)
                && #[trigger] call_ensures(L::get_log, (logs, i), Err::<Log, RaftError>(e)),
{
    let full: u64 = next_index + core.conf.max_append_entries as u64 - 1;
    let max_index: u64 = if full <= last_index {
        full
    } else {
        last_index
    };
    let ghost end = batch_end(next_index, core@.conf.max_append_entries, last_index);
    assert(max_index == end);
    let mut entries: Vec<Log> = Vec::new();
    assert(log_views(entries@) =~= entries_between(
        logs.entries(),
        next_index as int,
        next_index - 1,
    ));
    if next_index > max_index {
        assert(entries_between(logs.entries(), next_index as int, end) =~= Seq::empty());
        return Ok(entries);
    }
    let mut sent: u64 = next_index - 1;
    while sent < max_index
        invariant
            next_index >= 1,
            next_index <= max_index <= last_index,
            max_index == batch_end(next_index, core@.conf.max_append_entries, last_index),
            next_index - 1 <= sent <= max_index,
            log_views(entries@) == entries_between(
                logs.entries(),
                next_index as int,
                sent as int,
            ),
            forall|i: u64|
                next_index <= i <= sent ==> #[trigger] logs.entries().contains_key(i),
        decreases max_index - sent,
    {
        let ghost before = entries@;
        let log = match logs.get_log(sent + 1) {
            Ok(log) => log,
            Err(e) => {
                return Err(e);
            },
        };
        entries.push(log);
        sent += 1;
        assert(log_views(entries@) =~= log_views(before).push(log@));
        assert(entries_between(logs.entries(), next_index as int, sent as int)
            =~= entries_between(logs.entries(), next_index as int, sent - 1).push(
            logs.entries()[sent],
        ));
    }
    Ok(entries)
}

/// What a leader does next in bringing a follower up to date.
#[derive(Debug)]
pub enum ReplicateStep {
    /// Sends this request.
    Send(AppendEntriesRequest),
    /// The follower is too far behind; ships a snapshot instead.
    SendSnapshot,
    /// An entry could not be read; gives up for now.
    GiveUp,
}

/// What a leader does next, by what came of setting up a request.
pub fn step_for(setup: Result<AppendEntriesRequest>) -> (r: ReplicateStep)
    ensures
        r == match setup {
            Ok(req) => ReplicateStep::Send(req),
            Err(RaftError::LogNotFound) => ReplicateStep::SendSnapshot,
            Err(_) => ReplicateStep::GiveUp,
        },
{
    match setup {
        Ok(req) => ReplicateStep::Send(req),
        Err(RaftError::LogNotFound) => ReplicateStep::SendSnapshot,
        Err(_) => ReplicateStep::GiveUp,
    }
}

/// What follows from a reply in bringing a follower up to date.
#[derive(Debug, Clone, Copy, PartialEq, Eq, Structural)]
pub enum ReplyStep {
    /// The follower knows a newer term: replication stops, the leader steps
    /// down.
    Stop,
    /// There is more to send.
    More,
    /// The follower is up to date.
    Done,
}

/// The next index after a refusal: one back, and no further than just past
/// the follower's log, but at least the first.
pub open spec fn next_after_refusal(next: u64, last_log: u64) -> u64 {
    let back = if next > 0 {
        (next - 1) as u64
    } else {
        0
    };
    let capped = if back <= last_log + 1 {
        back
    } else {
        (last_log + 1) as u64
    };
    if capped >= 1 {
        capped
    } else {
        1
    }
}

/// The follower after an append was acknowledged.
pub open spec fn acknowledged(
    r: ReplicationView,
    entries: Seq<LogView>,
    now: Instant,
) -> ReplicationView {
    ReplicationView {
        last_contact: now,
        next_index: if entries.len() > 0 {
            (entries.last().index + 1) as u64
        } else {
            r.next_index
        },
        notify: Seq::empty(),
        ..r
    }
}

/// The commitment after a follower was seen to store the log up to the last
/// of these entries.
pub open spec fn matched_entries(
    before: CommitmentView,
    id: Seq<char>,
    entries: Seq<LogView>,
    after: CommitmentView,
) -> bool {
    if entries.len() > 0 {
        matched_index(before, id, entries.last().index, after)
    } else {
        after == before
    }
}

/// The commitment after a server was seen to store the log up to an index.
pub open spec fn matched_index(
    before: CommitmentView,
    id: Seq<char>,
    index: u64,
    after: CommitmentView,
) -> bool {
    if before.matched.contains_key(id) && index > before.matched[id] {
        recalculated(before, before.matched.insert(id, index), after)
    } else {
        after == before
    }
}

/// The waiting time before the next attempt after so many failures, in
/// nanoseconds.
pub open spec fn failure_wait(failures: u64) -> nat {
    doubled_span((FAILURE_WAIT_MILLIS * 1_000_000) as nat, backoff_doublings(
        failures,
        MAX_FAILURE_SCALE,
    ))
}

proof fn lemma_doubled_span_bound(base: nat, times: nat)
    requires
        times <= 10,
        base <= 10_000_000,
    ensures
        doubled_span(base, times) <= 10_240_000_000,
{
    reveal_with_fuel(doubled_span, 11);
}

impl FollowerReplication {
    /// Removes the verifications to vote on.
    pub fn take_notify(&mut self) -> (r: Vec<u64>)
        ensures
            r@ == old(self)@.notify,
            final(self)@ == (ReplicationView { notify: Seq::empty(), ..old(self)@ }),
    {
        let mut taken: Vec<u64> = Vec::new();
        std::mem::swap(&mut taken, &mut self.notify);
        taken
    }

    /// Removes one verification from those to vote on.
    pub fn clean_notify(&mut self, ticket: u64)
        ensures
            final(self)@ == (ReplicationView {
                notify: other_tickets(old(self)@.notify, ticket),
                ..old(self)@
            }),
    {
        let mut kept: Vec<u64> = Vec::new();
        let mut i: usize = 0;
        assert(other_tickets(self.notify@.take(0), ticket) =~= Seq::empty());
        while i < self.notify.len()
            invariant
                i <= self.notify@.len(),
                self.notify@ == old(self).notify@,
                self@ == old(self)@,
                kept@ == other_tickets(self.notify@.take(i as int), ticket),
            decreases self.notify@.len() - i,
        {
            assert(self.notify@.take(i + 1).drop_last() =~= self.notify@.take(i as int));
            if self.notify[i] != ticket {
                kept.push(self.notify[i]);
            }
            i += 1;
        }
        assert(self.notify@.take(i as int) =~= self.notify@);
        self.notify = kept;
    }

    /// How long to wait before the next attempt, to prevent an excessive
    /// retry rate on errors.
    pub fn retry_wait(&self) -> (r: Option<Duration>)
        ensures
            match r {
                Some(wait) => self@.failures > 0 && wait@ == failure_wait(self@.failures),
                None => self@.failures == 0,
            },
    {
        if self.failures == 0 {
            return None;
        }
        proof {
            lemma_doubled_span_bound(
                (FAILURE_WAIT_MILLIS * 1_000_000) as nat,
                backoff_doublings(self.failures, MAX_FAILURE_SCALE),
            );
        }
        Some(
            backoff(Duration::from_millis(FAILURE_WAIT_MILLIS), self.failures, MAX_FAILURE_SCALE),
        )
    }

    /// Whether there are entries up to `last_index` that the follower lacks.
    fn more_or_done(&self, last_index: u64) -> (r: ReplyStep)
        ensures
            r == if self@.next_index <= last_index {
                ReplyStep::More
            } else {
                ReplyStep::Done
            },
    {
        if self.next_index <= last_index {
            ReplyStep::More
        } else {
            ReplyStep::Done
        }
    }

    /// The next step in bringing the follower up to `last_index`: a request,
    /// or a snapshot where the log no longer reaches down to what the follower
    /// lacks.
    pub fn next_step<L: LogStore>(&self, core: &RaftCore, logs: &L, last_index: u64) -> (r:
        ReplicateStep)
        requires
            self@.next_index >= 1,
            self@.next_index + core@.conf.max_append_entries <= u64::MAX,
        ensures
            r matches ReplicateStep::Send(req) ==> is_append_request(
                core@,
                logs.entries(),
                self@.current_term,
                self@.next_index,
                last_index,
                req,
            ),
            self@.next_index > last_index && (self@.next_index == 1 || self@.next_index - 1
                == core@.shared.last_snapshot.0) ==> r is Send,
            !(r is Send) ==> exists|i: u64, e: RaftError|
                reads_entry(core@, self@.next_index, last_index, i) && #[trigger] call_ensures(
                    L::get_log,
                    (logs, i),
                    Err::<Log, RaftError>(e),
                ) && (r is SendSnapshot <==> e is LogNotFound),
    {
        let setup = setup_append_entries(
            core,
            logs,
            self.current_term,
            self.next_index,
            last_index,
        );
        step_for(setup)
    }

    /// Counts a request that failed.
    pub fn request_failed(&mut self)
        requires
            old(self)@.failures < u64::MAX,
        ensures
            final(self)@ == (ReplicationView {
                failures: (old(self)@.failures + 1) as u64,
                ..old(self)@
            }),
    {
        self.failures = self.failures + 1;
    }

    /// Updates the state after a successful AppendEntries RPC; returns the
    /// verifications that get a positive vote.
    pub fn update_last_appended(
        &mut self,
        commitment: &mut Commitment,
        entries: &Vec<Log>,
        now: Instant,
    ) -> (voted: Vec<u64>)
        requires
            entries@.len() > 0 ==> entries@.last().index < u64::MAX,
        ensures
            final(self)@ == acknowledged(old(self)@, log_views(entries@), now),
            matched_entries(
                old(commitment)@,
                old(self)@.peer.id,
                log_views(entries@),
                final(commitment)@,
            ),
            voted@ == old(self)@.notify,
    {
        self.last_contact = now;
        if entries.len() > 0 {
            let last: u64 = entries[entries.len() - 1].index;
            assert(log_views(entries@).last().index == last);
            self.next_index = last + 1;
            commitment.match_index(self.peer.id.as_str(), last);
        }
        self.take_notify()
    }

    /// Handles the reply to an AppendEntries request of the standard mode.
    /// Returns what follows, the verifications that get a vote, and which way
    /// they are voted; `allow_pipeline` is set where the reply allows it.
    pub fn append_replied(
        &mut self,
        commitment: &mut Commitment,
        req: &AppendEntriesRequest,
        resp: &AppendEntriesResponse,
        last_index: u64,
        allow_pipeline: &mut bool,
        now: Instant,
    ) -> (r: (ReplyStep, Vec<u64>, bool))
        requires
            req.entries@.len() > 0 ==> req.entries@.last().index < u64::MAX,
            resp.last_log < u64::MAX,
            old(self)@.failures < u64::MAX,
        ensures
            if resp.term > req.term {
                &&& r.0 == ReplyStep::Stop
                &&& r.1@ == old(self)@.notify
                &&& !r.2
                &&& final(self)@ == (ReplicationView { notify: Seq::empty(), ..old(self)@ })
                &&& final(commitment)@ == old(commitment)@
                &&& *final(allow_pipeline) == *old(allow_pipeline)
            } else if resp.success {
                &&& final(self)@ == (ReplicationView {
                    failures: 0,
                    ..acknowledged(old(self)@, log_views(req.entries@), now)
                })
                &&& matched_entries(
                    old(commitment)@,
                    old(self)@.peer.id,
                    log_views(req.entries@),
                    final(commitment)@,
                )
                &&& r.1@ == old(self)@.notify
                &&& r.2
                &&& *final(allow_pipeline)
                &&& r.0 == if final(self)@.next_index <= last_index {
                    ReplyStep::More
                } else {
                    ReplyStep::Done
                }
            } else {
                &&& final(self)@ == (ReplicationView {
                    last_contact: now,
                    next_index: next_after_refusal(old(self)@.next_index, resp.last_log),
                    failures: if resp.no_retry_backoff {
                        0
                    } else {
                        (old(self)@.failures + 1) as u64
                    },
                    ..old(self)@
                })
                &&& final(commitment)@ == old(commitment)@
                &&& r.1@.len() == 0
                &&& *final(allow_pipeline) == *old(allow_pipeline)
                &&& r.0 == if final(self)@.next_index <= last_index {
                    ReplyStep::More
                } else {
                    ReplyStep::Done
                }
            },
    {
        // Check for a newer term, stop running.
        if resp.term > req.term {
            let voted = self.take_notify();
            return (ReplyStep::Stop, voted, false);
        }
        if resp.success {
            let voted = self.update_last_appended(commitment, &req.entries, now);
            // Clear any failures, allow pipelining.
            self.failures = 0;
            *allow_pipeline = true;
            let step = self.more_or_done(last_index);
            return (step, voted, true);
        }
        self.last_contact = now;
        let back: u64 = if self.next_index > 0 {
            self.next_index - 1
        } else {
            0
        };
        let capped: u64 = if back <= resp.last_log + 1 {
            back
        } else {
            resp.last_log + 1
        };
        self.next_index = if capped >= 1 {
            capped
        } else {
            1
        };
        if resp.no_retry_backoff {
            self.failures = 0;
        } else {
            self.failures = self.failures + 1;
        }
        let step = self.more_or_done(last_index);
        (step, Vec::new(), false)
    }

    /// The request that ships a snapshot to the follower; `configuration` is
    /// the snapshot's configuration, encoded.
    pub fn snapshot_request(
        &self,
        core: &RaftCore,
        meta: &SnapshotMeta,
        configuration: Vec<u8>,
    ) -> (r: InstallSnapshotRequest)
        ensures
            r.header@ == own_header(core@),
            r.snapshot_version == meta.version,
            r.term == self@.current_term,
            r.last_log_index == meta.index,
            r.last_log_term == meta.term,
            r.configuration@ == configuration@,
            r.configuration_index == meta.configuration_index,
            r.size == meta.size,
    {
        InstallSnapshotRequest {
            header: core.rpc_header(),
            snapshot_version: meta.version,
            term: self.current_term,
            last_log_index: meta.index,
            last_log_term: meta.term,
            configuration,
            configuration_index: meta.configuration_index,
            size: meta.size,
        }
    }

    /// Handles the reply to a shipped snapshot. Returns what follows, the
    /// verifications that get a vote, and which way they are voted.
    pub fn snapshot_replied(
        &mut self,
        commitment: &mut Commitment,
        req: &InstallSnapshotRequest,
        resp: &InstallSnapshotResponse,
        last_index: u64,
        now: Instant,
    ) -> (r: (ReplyStep, Vec<u64>, bool))
        requires
            req.last_log_index < u64::MAX,
            old(self)@.failures < u64::MAX,
        ensures
            if resp.term > req.term {
                &&& r.0 == ReplyStep::Stop
                &&& r.1@ == old(self)@.notify
                &&& !r.2
                &&& final(self)@ == (ReplicationView { notify: Seq::empty(), ..old(self)@ })
                &&& final(commitment)@ == old(commitment)@
            } else {
                &&& r.0 == if final(self)@.next_index <= last_index {
                    ReplyStep::More
                } else {
                    ReplyStep::Done
                }
                &&& if resp.success {
                    &&& final(self)@ == (ReplicationView {
                        last_contact: now,
                        next_index: (req.last_log_index + 1) as u64,
                        failures: 0,
                        notify: Seq::empty(),
                        ..old(self)@
                    })
                    &&& matched_index(
                        old(commitment)@,
                        old(self)@.peer.id,
                        req.last_log_index,
                        final(commitment)@,
                    )
                    &&& r.1@ == old(self)@.notify
                    &&& r.2
                } else {
                    &&& final(self)@ == (ReplicationView {
                        last_contact: now,
                        failures: (old(self)@.failures + 1) as u64,
                        ..old(self)@
                    })
                    &&& final(commitment)@ == old(commitment)@
                    &&& r.1@.len() == 0
                }
            },
    {
        // Check for a newer term, stop running.
        if resp.term > req.term {
            let voted = self.take_notify();
            return (ReplyStep::Stop, voted, false);
        }
        // Update the last contact.
        self.last_contact = now;
        if resp.success {
            // Update the indexes.
            self.next_index = req.last_log_index + 1;
            commitment.match_index(self.peer.id.as_str(), req.last_log_index);
            // Clear any failures.
            self.failures = 0;
            let voted = self.take_notify();
            let step = self.more_or_done(last_index);
            (step, voted, true)
        } else {
            self.failures = self.failures + 1;
            let step = self.more_or_done(last_index);
            (step, Vec::new(), false)
        }
    }

    /// Handles the reply to a pipelined request. Returns whether the pipeline
    /// goes on, whether the leader must step down, and the verifications that
    /// get a vote, positive unless the leader steps down.
    pub fn pipeline_replied(
        &mut self,
        commitment: &mut Commitment,
        req: &AppendEntriesRequest,
        resp: &AppendEntriesResponse,
        now: Instant,
    ) -> (r: (bool, bool, Vec<u64>))
        requires
            req.entries@.len() > 0 ==> req.entries@.last().index < u64::MAX,
        ensures
            r.0 == (resp.term <= req.term && resp.success),
            r.1 == (resp.term > req.term),
            if resp.term > req.term {
                &&& r.2@ == old(self)@.notify
                &&& final(self)@ == (ReplicationView { notify: Seq::empty(), ..old(self)@ })
                &&& final(commitment)@ == old(commitment)@
            } else if resp.success {
                &&& r.2@ == old(self)@.notify
                &&& final(self)@ == acknowledged(old(self)@, log_views(req.entries@), now)
                &&& matched_entries(
                    old(commitment)@,
                    old(self)@.peer.id,
                    log_views(req.entries@),
                    final(commitment)@,
                )
            } else {
                &&& r.2@.len() == 0
                &&& final(self)@ == (ReplicationView { last_contact: now, ..old(self)@ })
                &&& final(commitment)@ == old(commitment)@
            },
    {
        // Check for a newer term, stop running.
        if resp.term > req.term {
            let voted = self.take_notify();
            return (false, true, voted);
        }
        // Abort the pipeline if not successful.
        if !resp.success {
            self.last_contact = now;
            return (false, false, Vec::new());
        }
        // Update our replication state.
        let voted = self.update_last_appended(commitment, &req.entries, now);
        (true, false, voted)
    }

    /// The heartbeat of this leader to the follower.
    pub fn heartbeat_request(&self, core: &RaftCore) -> (r: AppendEntriesRequest)
        ensures
            r.header@ == own_header(core@),
            r.term == self@.current_term,
            crate::transport::heartbeat_shaped(crate::transport::RPCCommand::AppendEntries(r)),
    {
        AppendEntriesRequest {
            header: core.rpc_header(),
            term: self.current_term,
            prev_log_entry: 0,
            prev_log_term: 0,
            entries: Vec::new(),
            leader_commit_index: 0,
        }
    }

    /// Handles the reply to a heartbeat; returns the verifications that get a
    /// vote, positive where the reply is a success.
    pub fn heartbeat_replied(&mut self, now: Instant) -> (voted: Vec<u64>)
        ensures
            voted@ == old(self)@.notify,
            final(self)@ == (ReplicationView {
                last_contact: now,
                notify: Seq::empty(),
                ..old(self)@
            }),
    {
        self.last_contact = now;
        self.take_notify()
    }
}

/// The ID of the snapshot that is shipped to a follower: the first of the
/// list, which is the newest.
pub fn snapshot_to_ship(snapshots: &Vec<SnapshotMeta>) -> (r: Result<String>)
    ensures
        snapshots@.len() == 0 ==> (r matches Err(RaftError::Snapshot(text)) && text@
            == "no snapshots found"@),
        snapshots@.len() > 0 ==> (r matches Ok(id) && id@ == snapshots@[0].id@),
{
    if snapshots.len() == 0 {
        return Err(RaftError::Snapshot("no snapshots found".to_owned()));
    }
    Ok(snapshots[0].id.clone())
}

/// The next index to send on a pipeline after a request was sent.
pub fn pipeline_next(next_index: u64, entries: &Vec<Log>) -> (r: u64)
    requires
        entries@.len() > 0 ==> entries@.last().index < u64::MAX,
    ensures
        r == if entries@.len() > 0 {
            (entries@.last().index + 1) as u64
        } else {
            next_index
        },
{
    if entries.len() > 0 {
        entries[entries.len() - 1].index + 1
    } else {
        next_index
    }
}

/// The waiting time after a failed heartbeat, in nanoseconds: never more than
/// half the heartbeat timeout.
pub open spec fn heartbeat_wait(failures: u64, heartbeat_timeout: nat) -> nat {
    let wait = doubled_span(
        (FAILURE_WAIT_MILLIS * 1_000_000) as nat,
        backoff_doublings(failures, MAX_FAILURE_SCALE),
    );
    let cap = heartbeat_timeout / 2;
    if wait <= cap {
        wait
    } else {
        cap
    }
}

/// How long to wait after a failed heartbeat, of which so many failed before.
pub fn heartbeat_retry_wait(failures: u64, heartbeat_timeout: Duration) -> (r: Duration)
    ensures
        r@ == heartbeat_wait(failures, heartbeat_timeout@),
{
    let base = Duration::from_millis(FAILURE_WAIT_MILLIS);
    let cap = heartbeat_timeout.divided_by(2);
    proof {
        let steps = backoff_doublings(failures, MAX_FAILURE_SCALE);
        assert forall|k: nat| k < steps implies #[trigger] doubling_fits(base@, k, cap@) by {
            lemma_doubled_span_bound(base@, k);
        }
    }
    capped_exponential_backoff(base, failures, MAX_FAILURE_SCALE, cap)
}

/// The heartbeats of a leader to one follower.
#[derive(Debug, Clone, Copy, PartialEq, Eq, Structural)]
pub struct HeartbeatLoop {
    /// How many heartbeats in a row have failed.
    pub failures: u64,
}

impl HeartbeatLoop {
    /// No heartbeat has failed.
    pub fn new() -> (r: Self)
        ensures
            r.failures == 0,
    {
        HeartbeatLoop { failures: 0 }
    }

    /// Notes down that the follower did not answer a heartbeat; returns how
    /// long to wait before the next.
    pub fn failed(&mut self, core: &mut RaftCore, repl: &FollowerReplication) -> (wait: Duration)
        ensures
            wait@ == heartbeat_wait(old(self).failures, old(core)@.conf.heartbeat_timeout),
            final(self).failures == if old(self).failures < u64::MAX {
                (old(self).failures + 1) as u64
            } else {
                u64::MAX
            },
            final(core)@ == with_observation(
                old(core)@,
                ObservationView::FailedHeartbeat {
                    peer_id: repl@.peer.id,
                    last_contact: Some(repl@.last_contact),
                },
            ),
    {
        let wait = heartbeat_retry_wait(self.failures, core.conf.heartbeat_timeout);
        self.failures = self.failures.saturating_add(1);
        core.observe(
            ObservationData::FailedHeartbeat(
                FailedHeartbeatObservation {
                    peer_id: repl.peer.id.clone(),
                    last_contact: Some(repl.last_contact),
                },
            ),
        );
        wait
    }

    /// Handles the answer to a heartbeat, of a follower that may have failed
    /// to answer before; returns the verifications that get a vote, positive
    /// where the reply is a success.
    pub fn replied(
        &mut self,
        core: &mut RaftCore,
        repl: &mut FollowerReplication,
        now: Instant,
    ) -> (voted: Vec<u64>)
        ensures
            voted@ == old(repl)@.notify,
            final(repl)@ == (ReplicationView {
                last_contact: now,
                notify: Seq::empty(),
                ..old(repl)@
            }),
            final(self).failures == 0,
            final(core)@ == if old(self).failures > 0 {
                with_observation(
                    old(core)@,
                    ObservationView::ResumedHeartbeat { peer_id: old(repl)@.peer.id },
                )
            } else {
                old(core)@
            },
    {
        if self.failures > 0 {
            core.observe(
                ObservationData::ResumedHeartbeat(
                    ResumedHeartbeatObservation { peer_id: repl.peer.id.clone() },
                ),
            );
        }
        self.failures = 0;
        repl.heartbeat_replied(now)
    }
}

/// How a replication loop sends.
#[derive(Debug, Clone, Copy, PartialEq, Eq, Structural)]
pub enum ReplicationMode {
    /// One request at a time.
    Standard,
    /// Requests are streamed.
    Pipeline,
    /// Replication has ended.
    Ended,
}

/// What wakes a replication loop.
#[derive(Debug, Clone, Copy, PartialEq, Eq, Structural)]
pub enum Wakeup {
    /// Replication is to stop, after a best effort up to an index; none is
    /// given where the leader stepped down.
    Stop(Option<u64>),
    /// New entries, or the commit timeout, up to this index of the log.
    Replicate(u64),
    /// The pipeline's replies have ended.
    PipelineEnded,
}

/// A replication loop's mode, and whether the next healthy round may switch
/// to the pipeline.
#[derive(Debug, Clone, Copy, PartialEq, Eq, Structural)]
pub struct ReplicationLoop {
    pub mode: ReplicationMode,
    pub allow_pipeline: bool,
}

impl ReplicationLoop {
    /// A loop in standard mode.
    pub fn new() -> (r: Self)
        ensures
            r == (ReplicationLoop { mode: ReplicationMode::Standard, allow_pipeline: false }),
    {
        ReplicationLoop { mode: ReplicationMode::Standard, allow_pipeline: false }
    }

    /// What a wakeup asks for: up to which index to send, if at all. A stop
    /// ends standard mode; it leaves the pipeline for standard mode, where
    /// the stop signal, closed by then, ends the loop.
    pub fn wake(&mut self, event: Wakeup) -> (send_up_to: Option<u64>)
        ensures
            send_up_to == match event {
                Wakeup::Stop(Some(max)) => if max > 0 {
                    Some(max)
                } else {
                    None
                },
                Wakeup::Stop(None) => None,
                Wakeup::Replicate(last) => Some(last),
                Wakeup::PipelineEnded => None,
            },
            *final(self) == match event {
                Wakeup::Stop(_) => ReplicationLoop {
                    mode: if old(self).mode == ReplicationMode::Pipeline {
                        ReplicationMode::Standard
                    } else {
                        ReplicationMode::Ended
                    },
                    ..*old(self)
                },
                Wakeup::Replicate(_) => *old(self),
                Wakeup::PipelineEnded => ReplicationLoop {
                    mode: ReplicationMode::Standard,
                    ..*old(self)
                },
            },
    {
        match event {
            Wakeup::Stop(max) => {
                self.mode = if self.mode == ReplicationMode::Pipeline {
                    ReplicationMode::Standard
                } else {
                    ReplicationMode::Ended
                };
                match max {
                    Some(max) => if max > 0 {
                        Some(max)
                    } else {
                        None
                    },
                    None => None,
                }
            },
            Wakeup::Replicate(last) => Some(last),
            Wakeup::PipelineEnded => {
                self.mode = ReplicationMode::Standard;
                None
            },
        }
    }

    /// Concludes a round of standard mode: a follower that knows a newer term
    /// ends the loop, and a healthy round may switch to the pipeline, which
    /// then is disallowed until another success allows it.
    pub fn round_done(&mut self, should_stop: bool)
        requires
            old(self).mode == ReplicationMode::Standard,
        ensures
            *final(self) == if should_stop {
                ReplicationLoop { mode: ReplicationMode::Ended, ..*old(self) }
            } else if old(self).allow_pipeline {
                ReplicationLoop { mode: ReplicationMode::Pipeline, allow_pipeline: false }
            } else {
                *old(self)
            },
    {
        if should_stop {
            self.mode = ReplicationMode::Ended;
        } else if self.allow_pipeline {
            self.allow_pipeline = false;
            self.mode = ReplicationMode::Pipeline;
        }
    }

    /// Concludes a send on the pipeline: a failed send falls back to standard
    /// mode.
    pub fn pipeline_sent(&mut self, failed: bool)
        requires
            old(self).mode == ReplicationMode::Pipeline,
        ensures
            *final(self) == if failed {
                ReplicationLoop { mode: ReplicationMode::Standard, ..*old(self) }
            } else {
                *old(self)
            },
    {
        if failed {
            self.mode = ReplicationMode::Standard;
        }
    }
}

/// A follower that refuses is asked for older entries each time until the
/// first one: the next index goes down, and stays at least one.
pub proof fn law_refusals_walk_back(next: u64, last_log: u64)
    requires
        next >= 1,
        last_log < u64::MAX,
    ensures
        1 <= next_after_refusal(next, last_log) <= next,
        next > 1 ==> next_after_refusal(next, last_log) < next,
        next > 1 ==> next_after_refusal(next, last_log) <= last_log + 1,
{
}

/// The waiting time between attempts grows with the failures, up to the
/// failure scale, and never beyond.
pub proof fn law_failure_wait_is_bounded(failures: u64)
    ensures
        10_000_000 <= failure_wait(failures) <= 10_240_000_000,
        failures <= 2 ==> failure_wait(failures) == 10_000_000,
        failures >= MAX_FAILURE_SCALE ==> failure_wait(failures) == 10_240_000_000,
{
    reveal_with_fuel(doubled_span, 11);
}

/// The requests of a leader are stretches of its log: the entries follow on
/// the one that is named as the previous one.
pub proof fn law_requests_are_stretches_of_the_log(
    n: NodeView,
    stored: Map<u64, LogView>,
    term: u64,
    next: u64,
    last: u64,
    req: AppendEntriesRequest,
)
    requires
        next >= 1,
        next + n.conf.max_append_entries <= u64::MAX,
        is_append_request(n, stored, term, next, last, req),
        forall|i: u64| #[trigger] stored.contains_key(i) ==> i >= 1 && stored[i].index == i,
        stored.contains_key(n.shared.last_snapshot.0) ==> stored[n.shared.last_snapshot.0].term
            == n.shared.last_snapshot.1,
    ensures
        stretch_of(stored, req.prev_log_entry, req.prev_log_term, log_views(req.entries@)),
{
    let entries = log_views(req.entries@);
    assert forall|x: int| 0 <= x < entries.len() implies {
        &&& (#[trigger] entries[x]).index == req.prev_log_entry + 1 + x
        &&& stored.contains_key(entries[x].index)
        &&& same_entry(stored[entries[x].index], entries[x])
    } by {
        let i = (next + x) as u64;
        assert(stored.contains_key(i));
        assert(entries[x] == stored[i]);
    }
}

} // verus!
