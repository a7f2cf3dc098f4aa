//! Keeping, checking, handing over and giving up leadership, changing the
//! membership, and restoring a snapshot of a user.

use crate::apply::{FutureView, LogFuture};
use crate::commitment::{carried_over, recalculated};
use crate::config::SNAPSHOT_VERSION_MAX;
use crate::configuration::{
    changed_servers, first_fault, majority, next_configuration, valid_servers, voter_count,
    Configuration, ConfigurationChangeRequest, Server, ServerAddress, ServerID, ServerSuffrage,
    ServerView,
};
use crate::election::server_views;
use crate::error::{step_text, RaftError, Result};
use crate::future::{verify_decides, verify_voted, VerifyState};
use crate::leader::{
    all_failed, all_unverified, dispatch_written, dispatched, distinct_peers, fail_all,
    fail_verifications, future_views, logs_of, newly_replicated, observed_added, observed_removed,
    peers_of, replicated, unwanted_replication, wanted_replication, with_servers_replicated,
    write_refused, write_taken, Dispatch, FailedRequest, LeaderState, LeaderView, Loss,
    PendingVerify, ReplicationChanges,
};
use crate::log::{Log, LogStore, LogType, LogView};
use crate::raft::{with_contact, with_latest, with_state, NodeView, RaftCore};
use crate::replication::{other_tickets, ReplicationView};
use crate::snapshot::{
    failed_step, wait_for_configuration, wait_for_configuration_text, SnapshotMeta, SnapshotPlan,
};
use crate::state::{RaftSharedState, RaftState};
use crate::text::{decimal, joined, push_decimal, same_text};
use crate::time::{Duration, Instant};
use crate::transport::TimeoutNowResponse;
use vstd::prelude::*;

verus! {

/// Every open verification still lacks votes.
pub open spec fn verifications_open(notify: Seq<PendingVerify>) -> bool {
    forall|i: int|
        0 <= i < notify.len() && (#[trigger] notify[i]).state.armed ==> notify[i].state.votes
            < notify[i].state.quorum_size
}

/// No ticket is pending twice.
pub open spec fn distinct_tickets(notify: Seq<PendingVerify>) -> bool {
    forall|i: int, j: int|
        0 <= i < j < notify.len() ==> (#[trigger] notify[i]).ticket != (#[trigger] notify[j]).ticket
}

/// The pending verifications after a vote on one of them.
pub open spec fn after_vote(notify: Seq<PendingVerify>, ticket: u64, leader: bool) -> Seq<
    PendingVerify,
> {
    notify.map_values(
        |p: PendingVerify|
            if p.ticket == ticket {
                PendingVerify { ticket, state: verify_voted(p.state, leader) }
            } else {
                p
            },
    )
}

/// Whether a vote on this ticket decides its verification.
pub open spec fn vote_decides(notify: Seq<PendingVerify>, ticket: u64, leader: bool) -> bool {
    exists|i: int|
        0 <= i < notify.len() && (#[trigger] notify[i]).ticket == ticket && verify_decides(
            notify[i].state,
            leader,
        )
}

/// The pending verifications after votes on these tickets, in order.
pub open spec fn after_votes(notify: Seq<PendingVerify>, tickets: Seq<u64>, leader: bool) -> Seq<
    PendingVerify,
>
    decreases tickets.len(),
{
    if tickets.len() == 0 {
        notify
    } else {
        after_vote(after_votes(notify, tickets.drop_last(), leader), tickets.last(), leader)
    }
}

/// The tickets among these whose verification a vote decides, in order.
pub open spec fn decided_tickets(
    notify: Seq<PendingVerify>,
    tickets: Seq<u64>,
    leader: bool,
) -> Seq<u64>
    decreases tickets.len(),
{
    if tickets.len() == 0 {
        Seq::empty()
    } else {
        let before = decided_tickets(notify, tickets.drop_last(), leader);
        if vote_decides(
            after_votes(notify, tickets.drop_last(), leader),
            tickets.last(),
            leader,
        ) {
            before.push(tickets.last())
        } else {
            before
        }
    }
}

/// The pending verifications without those of this ticket, in the same order.
pub open spec fn without_ticket(notify: Seq<PendingVerify>, ticket: u64) -> Seq<PendingVerify>
    decreases notify.len(),
{
    if notify.len() == 0 {
        notify
    } else if notify.last().ticket == ticket {
        without_ticket(notify.drop_last(), ticket)
    } else {
        without_ticket(notify.drop_last(), ticket).push(notify.last())
    }
}

/// A follower that no longer votes on this ticket.
pub open spec fn without_notify(r: ReplicationView, ticket: u64) -> ReplicationView {
    ReplicationView { notify: other_tickets(r.notify, ticket), ..r }
}

/// A follower that also votes on this ticket.
pub open spec fn with_notify(r: ReplicationView, ticket: u64) -> ReplicationView {
    ReplicationView { notify: r.notify.push(ticket), ..r }
}

/// The answer to a verification that was decided.
#[derive(Debug, Clone, Copy, PartialEq, Eq, Structural)]
pub enum VerifyAnswer {
    /// A quorum agrees that this node still leads.
    Confirmed,
    /// There must be a new leader; this node is a follower now.
    NotLeader,
    /// No such verification is pending.
    Unknown,
}

/// A span of time between two clock readings, empty where they are reversed.
pub open spec fn span(from: Instant, to: Instant) -> nat {
    if to.nanos >= from.nanos {
        (to.nanos - from.nanos) as nat
    } else {
        0
    }
}

/// Whether a follower was heard of within the lease.
pub open spec fn within_lease(repl: Seq<ReplicationView>, id: Seq<char>, lease: nat, now: Instant) -> bool {
    exists|i: int|
        0 <= i < repl.len() && (#[trigger] repl[i]).peer.id == id && span(
            repl[i].last_contact,
            now,
        ) <= lease
}

/// Whether a voter counts as contacted: the leader itself always does.
pub open spec fn contacted(
    n: NodeView,
    repl: Seq<ReplicationView>,
    s: ServerView,
    now: Instant,
) -> bool {
    s.suffrage == ServerSuffrage::Voter && (s.id == n.local_id || within_lease(
        repl,
        s.id,
        n.conf.leader_lease_timeout,
        now,
    ))
}

/// How many of these servers are voters that count as contacted.
pub open spec fn contacted_count(
    n: NodeView,
    repl: Seq<ReplicationView>,
    servers: Seq<ServerView>,
    now: Instant,
) -> nat
    decreases servers.len(),
{
    if servers.len() == 0 {
        0
    } else {
        contacted_count(n, repl, servers.drop_last(), now) + if contacted(
            n,
            repl,
            servers.last(),
            now,
        ) {
            1nat
        } else {
            0nat
        }
    }
}

/// Whether `silence` is the longest time without contact among the contacted
/// followers of these servers, zero where there is none.
pub open spec fn is_longest_silence(
    n: NodeView,
    repl: Seq<ReplicationView>,
    servers: Seq<ServerView>,
    now: Instant,
    silence: nat,
) -> bool {
    &&& forall|j: int, i: int|
        #![trigger servers[j], repl[i]]
        0 <= j < servers.len() && 0 <= i < repl.len() && contacted(n, repl, servers[j], now)
            && servers[j].id != n.local_id && repl[i].peer.id == servers[j].id ==> span(
            repl[i].last_contact,
            now,
        ) <= silence
    &&& silence == 0 || exists|j: int, i: int|
        #![trigger servers[j], repl[i]]
        0 <= j < servers.len() && 0 <= i < repl.len() && contacted(n, repl, servers[j], now)
            && servers[j].id != n.local_id && repl[i].peer.id == servers[j].id && span(
            repl[i].last_contact,
            now,
        ) == silence
}

/// The shortest time between two checks of the lease, in milliseconds.
pub const MIN_CHECK_INTERVAL_MILLIS: u64 = 10;

/// The time until the next check of the lease: what is left of it after the
/// longest silence, but not too little.
pub fn lease_check_interval(lease: Duration, max_diff: Duration) -> (r: Duration)
    ensures
        r@ == {
            let left = if lease@ >= max_diff@ {
                (lease@ - max_diff@) as nat
            } else {
                0
            };
            if left < MIN_CHECK_INTERVAL_MILLIS * 1_000_000 {
                (MIN_CHECK_INTERVAL_MILLIS * 1_000_000) as nat
            } else {
                left
            }
        },
{
    let shortest = Duration::from_millis(MIN_CHECK_INTERVAL_MILLIS);
    lease.saturating_sub(&max_diff).longer(&shortest)
}

/// A target for a transfer of leadership.
#[derive(Debug)]
pub struct TransferTarget {
    pub id: ServerID,
    pub address: ServerAddress,
}

/// Whether a server may be handed the leadership where none is named.
pub open spec fn transferable(n: NodeView, s: ServerView) -> bool {
    s.suffrage == ServerSuffrage::Voter && s.id != n.local_id
}

/// Whether `k` is the position of the first server that may be handed the
/// leadership.
pub open spec fn is_first_transferable(n: NodeView, k: int) -> bool {
    let servers = n.configurations.latest;
    &&& 0 <= k < servers.len()
    &&& transferable(n, servers[k])
    &&& forall|j: int| 0 <= j < k ==> !transferable(n, #[trigger] servers[j])
}

/// Whether some server may be handed the leadership.
pub open spec fn has_transferable(n: NodeView) -> bool {
    exists|j: int|
        0 <= j < n.configurations.latest.len() && transferable(
            n,
            #[trigger] n.configurations.latest[j],
        )
}

/// What a leader does while the target of a transfer catches up.
#[derive(Debug)]
pub enum TransferStep {
    /// The target has caught up: it is told to start an election.
    Send,
    /// Waits for the commit timeout and looks again.
    Wait,
    /// The deadline has passed.
    TimedOut(RaftError),
}

/// The complaint about a change that was based on another configuration.
pub open spec fn configuration_changed(since: u64, latest: u64) -> Seq<char> {
    "configuration changed since "@ + decimal(since as nat) + " (latest is "@ + decimal(
        latest as nat,
    ) + ")"@
}

/// The entry by which a configuration is put into the log.
pub open spec fn configuration_entry(data: Seq<u8>, ticket: Option<u64>) -> FutureView {
    FutureView {
        log: LogView { log_type: LogType::Configuration, data, ..crate::log::blank_log() },
        ticket,
    }
}

/// What dispatching a single entry comes to: the node, its leader state and
/// the log store before and after.
pub open spec fn entry_dispatched<L: LogStore>(
    n: NodeView,
    ls: LeaderView,
    logs: L,
    entry: FutureView,
    now: Instant,
    dispatch: Dispatch,
    after: NodeView,
    ls_after: LeaderView,
    logs_now: L,
) -> bool {
    let new = dispatched(
        seq![entry],
        n.shared.spec_last_index(),
        n.shared.current_term,
        now,
    );
    match dispatch {
        Dispatch::Written => {
            &&& dispatch_written(n, ls, seq![entry], now, after, ls_after)
            &&& write_taken(logs, logs_of(new), logs_now)
        },
        Dispatch::Failed { failed, loss } => {
            &&& all_failed(failed@, ls.inflight + new, loss)
            &&& after == with_state(n, RaftState::Follower)
            &&& ls_after == (LeaderView { inflight: Seq::empty(), ..ls })
            &&& write_refused(logs, logs_of(new), loss)
        },
    }
}

/// What putting a configuration to use comes to: it is the latest one, as of
/// the end of the log, it decides what is committed, and it says which
/// followers there are.
pub open spec fn put_to_use(
    n: NodeView,
    ls: LeaderView,
    servers: Seq<ServerView>,
    now: Instant,
    changes: ReplicationChanges,
    after: NodeView,
    ls_after: LeaderView,
) -> bool {
    let m = with_latest(n, servers, n.shared.spec_last_index());
    let all = with_servers_replicated(m, ls.repl, servers, now);
    let added = newly_replicated(m, ls.repl, servers, now);
    &&& after == observed_removed(observed_added(m, added), unwanted_replication(m, all))
    &&& ls_after == (LeaderView {
        commitment: ls_after.commitment,
        repl: wanted_replication(m, all),
        ..ls
    })
    &&& recalculated(
        ls.commitment,
        carried_over(ls.commitment.matched, servers),
        ls_after.commitment,
    )
    &&& server_views(changes.started@) == added
    &&& server_views(changes.stopped@) == peers_of(unwanted_replication(m, all))
    &&& changes.last_index == m.shared.spec_last_index()
}

/// The plan to restore a user's snapshot, and the requests in flight that it
/// aborts.
#[derive(Debug)]
pub struct RestorePlan {
    pub create: SnapshotPlan,
    pub aborted: Vec<FailedRequest>,
}

/// The index that a restored snapshot gets: past both the log and the
/// snapshot, leaving a hole so that the snapshot is sent to followers.
pub open spec fn restored_index(n: NodeView, meta_index: u64) -> int {
    if meta_index > n.shared.spec_last_index() {
        meta_index + 1
    } else {
        n.shared.spec_last_index() + 1
    }
}

impl LeaderState {
    /// Casts a vote on each of these verifications; returns the tickets whose
    /// verification that decides.
    pub fn vote_verifications(&mut self, tickets: &Vec<u64>, leader: bool) -> (decided: Vec<u64>)
        requires
            verifications_open(old(self)@.notify),
            distinct_tickets(old(self)@.notify),
        ensures
            final(self)@ == (LeaderView {
                notify: after_votes(old(self)@.notify, tickets@, leader),
                ..old(self)@
            }),
            decided@ == decided_tickets(old(self)@.notify, tickets@, leader),
            verifications_open(final(self)@.notify),
            distinct_tickets(final(self)@.notify),
    {
        let ghost start = self@.notify;
        let mut decided: Vec<u64> = Vec::new();
        let mut i: usize = 0;
        assert(tickets@.take(0) =~= Seq::empty());
        while i < tickets.len()
            invariant
                i <= tickets@.len(),
                start == old(self)@.notify,
                verifications_open(self@.notify),
                distinct_tickets(self@.notify),
                self@ == (LeaderView {
                    notify: after_votes(start, tickets@.take(i as int), leader),
                    ..old(self)@
                }),
                decided@ == decided_tickets(start, tickets@.take(i as int), leader),
            decreases tickets@.len() - i,
        {
            assert(tickets@.take(i + 1).drop_last() =~= tickets@.take(i as int));
            if self.vote_verification(tickets[i], leader) {
                decided.push(tickets[i]);
            }
            i += 1;
        }
        assert(tickets@.take(i as int) =~= tickets@);
        decided
    }

    /// Casts a vote on one verification; returns whether that decides it.
    fn vote_verification(&mut self, ticket: u64, leader: bool) -> (decided: bool)
        requires
            verifications_open(old(self)@.notify),
            distinct_tickets(old(self)@.notify),
        ensures
            final(self)@ == (LeaderView {
                notify: after_vote(old(self)@.notify, ticket, leader),
                ..old(self)@
            }),
            decided == vote_decides(old(self)@.notify, ticket, leader),
            verifications_open(final(self)@.notify),
            distinct_tickets(final(self)@.notify),
    {
        let ghost before = self@.notify;
        let mut i: usize = 0;
        while i < self.notify.len()
            invariant
                i <= self.notify@.len(),
                self@ == old(self)@,
                before == self.notify@,
                verifications_open(before),
                distinct_tickets(before),
                forall|j: int| 0 <= j < i ==> (#[trigger] before[j]).ticket != ticket,
            decreases self.notify@.len() - i,
        {
            if self.notify[i].ticket == ticket {
                let mut state = self.notify[i].state;
                let decided = state.vote(leader);
                self.notify.set(i, PendingVerify { ticket, state });
                proof {
                    assert forall|j: int| 0 <= j < before.len() && j != i implies (
                    #[trigger] before[j]).ticket != ticket by {
                        if j < i {
                            assert(before[j].ticket != before[i as int].ticket);
                        } else {
                            assert(before[i as int].ticket != before[j].ticket);
                        }
                    }
                    assert(self.notify@ =~= after_vote(before, ticket, leader));
                    assert(before[i as int].ticket == ticket);
                    if vote_decides(before, ticket, leader) {
                        let k = choose|k: int|
                            0 <= k < before.len() && (#[trigger] before[k]).ticket == ticket
                                && verify_decides(before[k].state, leader);
                        assert(k == i);
                    }
                    assert forall|a: int, b: int| 0 <= a < b < self.notify@.len() implies (
                    #[trigger] self.notify@[a]).ticket != (#[trigger] self.notify@[b]).ticket by {
                        assert(before[a].ticket != before[b].ticket);
                    }
                    assert forall|j: int|
                        0 <= j < self.notify@.len() && (
                        #[trigger] self.notify@[j]).state.armed implies self.notify@[j].state.votes
                        < self.notify@[j].state.quorum_size by {
                        assert(before[j].state.armed);
                    }
                }
                return decided;
            }
            i += 1;
        }
        assert(self.notify@ =~= after_vote(before, ticket, leader));
        false
    }

    /// Forgets a verification and the votes on it.
    fn forget_verification(&mut self, ticket: u64)
        ensures
            final(self)@ == (LeaderView {
                notify: without_ticket(old(self)@.notify, ticket),
                repl: old(self)@.repl.map_values(|r: ReplicationView| without_notify(r, ticket)),
                ..old(self)@
            }),
    {
        let ghost before = self@;
        let mut kept: Vec<PendingVerify> = Vec::new();
        let mut i: usize = 0;
        assert(without_ticket(self.notify@.take(0), ticket) =~= Seq::empty());
        while i < self.notify.len()
            invariant
                i <= self.notify@.len(),
                self@ == before,
                kept@ == without_ticket(self.notify@.take(i as int), ticket),
            decreases self.notify@.len() - i,
        {
            assert(self.notify@.take(i + 1).drop_last() =~= self.notify@.take(i as int));
            if self.notify[i].ticket != ticket {
                kept.push(self.notify[i]);
            }
            i += 1;
        }
        assert(self.notify@.take(i as int) =~= self.notify@);
        self.notify = kept;
        let ghost cleaned = |r: ReplicationView| without_notify(r, ticket);
        let mut k: usize = 0;
        while k < self.repl.len()
            invariant
                k <= self.repl@.len(),
                self.repl@.len() == before.repl.len(),
                cleaned == (|r: ReplicationView| without_notify(r, ticket)),
                forall|j: int| 0 <= j < k ==> (#[trigger] self.repl@[j])@ == cleaned(before.repl[j]),
                forall|j: int| k <= j < self.repl@.len() ==> (#[trigger] self.repl@[j])@
                    == before.repl[j],
                self@ == (LeaderView {
                    notify: without_ticket(before.notify, ticket),
                    repl: self@.repl,
                    ..before
                }),
            decreases self.repl@.len() - k,
        {
            self.repl[k].clean_notify(ticket);
            k += 1;
        }
        assert(self@.repl =~= before.repl.map_values(cleaned));
    }
}

impl RaftCore {
    /// Starts a leader verification: records our own vote and registers the
    /// ticket with every follower. Returns true where this node alone is the
    /// quorum, which confirms it at once.
    pub fn verify_leader(&mut self, ls: &mut LeaderState, ticket: u64) -> (confirmed: bool)
        ensures
            confirmed == (majority(voter_count(old(self)@.configurations.latest)) == 1),
            final(self)@ == old(self)@,
            final(ls)@ == if confirmed {
                old(ls)@
            } else {
                LeaderView {
                    notify: old(ls)@.notify.push(
                        PendingVerify {
                            ticket,
                            state: VerifyState {
                                quorum_size: majority(
                                    voter_count(old(self)@.configurations.latest),
                                ) as usize,
                                votes: 1,
                                armed: true,
                            },
                        },
                    ),
                    repl: old(ls)@.repl.map_values(|r: ReplicationView| with_notify(r, ticket)),
                    ..old(ls)@
                }
            },
            verifications_open(old(ls)@.notify) ==> verifications_open(final(ls)@.notify),
            distinct_tickets(old(ls)@.notify) && (forall|i: int|
                0 <= i < old(ls)@.notify.len() ==> (#[trigger] old(ls)@.notify[i]).ticket
                    != ticket) ==> distinct_tickets(final(ls)@.notify),
    {
        let quorum_size: usize = self.configurations.latest.quorum_size();
        // Hot path for a single-node cluster.
        if quorum_size == 1 {
            return true;
        }
        let ghost before = ls@;
        // Track this request (records the leader's own vote).
        let mut state = VerifyState::new();
        state.start(quorum_size);
        ls.notify.push(PendingVerify { ticket, state });
        let ghost pending = ls@.notify;
        let ghost joined_in = |r: ReplicationView| with_notify(r, ticket);
        let mut k: usize = 0;
        while k < ls.repl.len()
            invariant
                k <= ls.repl@.len(),
                ls.repl@.len() == before.repl.len(),
                joined_in == (|r: ReplicationView| with_notify(r, ticket)),
                forall|j: int|
                    0 <= j < k ==> (#[trigger] ls.repl@[j])@ == joined_in(before.repl[j]),
                forall|j: int| k <= j < ls.repl@.len() ==> (#[trigger] ls.repl@[j])@
                    == before.repl[j],
                ls@ == (LeaderView { notify: pending, repl: ls@.repl, ..before }),
            decreases ls.repl@.len() - k,
        {
            ls.repl[k].notify.push(ticket);
            k += 1;
        }
        assert(ls@.repl =~= before.repl.map_values(joined_in));
        false
    }

    /// Concludes a verification that was decided: enough votes confirm that
    /// this node still leads, too few mean that there must be a new leader.
    pub fn verify_decided(&mut self, ls: &mut LeaderState, ticket: u64) -> (r: VerifyAnswer)
        ensures
            match r {
                VerifyAnswer::Unknown => {
                    &&& forall|i: int|
                        0 <= i < old(ls)@.notify.len() ==> (#[trigger] old(ls)@.notify[i]).ticket
                            != ticket
                    &&& final(self)@ == old(self)@
                    &&& final(ls)@ == old(ls)@
                },
                _ => {
                    &&& exists|i: int|
                        0 <= i < old(ls)@.notify.len() && (
                        #[trigger] old(ls)@.notify[i]).ticket == ticket && (r
                            == VerifyAnswer::Confirmed <==> old(ls)@.notify[i].state.votes >= old(
                            ls,
                        )@.notify[i].state.quorum_size)
                    &&& final(self)@ == if r == VerifyAnswer::NotLeader {
                        with_state(old(self)@, RaftState::Follower)
                    } else {
                        old(self)@
                    }
                    &&& final(ls)@ == (LeaderView {
                        notify: without_ticket(old(ls)@.notify, ticket),
                        repl: old(ls)@.repl.map_values(
                            |r: ReplicationView| without_notify(r, ticket),
                        ),
                        ..old(ls)@
                    })
                },
            },
            verifications_open(old(ls)@.notify) ==> verifications_open(final(ls)@.notify),
            distinct_tickets(old(ls)@.notify) ==> distinct_tickets(final(ls)@.notify),
    {
        let mut i: usize = 0;
        while i < ls.notify.len()
            invariant
                i <= ls.notify@.len(),
                ls@ == old(ls)@,
                self@ == old(self)@,
                forall|j: int| 0 <= j < i ==> (#[trigger] ls@.notify[j]).ticket != ticket,
            decreases ls.notify@.len() - i,
        {
            if ls.notify[i].ticket == ticket {
                let state = ls.notify[i].state;
                assert(old(ls)@.notify[i as int].ticket == ticket);
                proof {
                    lemma_without_ticket(ls@.notify, ticket);
                }
                ls.forget_verification(ticket);
                if state.votes() < state.quorum_size() {
                    // Early return, means there must be a new leader.
                    self.set_state(RaftState::Follower);
                    return VerifyAnswer::NotLeader;
                }
                // Quorum of members agree, we are still leader.
                return VerifyAnswer::Confirmed;
            }
            i += 1;
        }
        VerifyAnswer::Unknown
    }

    /// Checks if we can contact a quorum of nodes within the last leader
    /// lease interval; steps down if not. Returns the maximum duration
    /// without contact.
    pub fn check_leader_lease(&mut self, ls: &LeaderState, now: Instant) -> (r: Duration)
        requires
            distinct_peers(ls@.repl),
        ensures
            is_longest_silence(
                old(self)@,
                ls@.repl,
                old(self)@.configurations.latest,
                now,
                r@,
            ),
            final(self)@ == if contacted_count(
                old(self)@,
                ls@.repl,
                old(self)@.configurations.latest,
                now,
            ) < majority(voter_count(old(self)@.configurations.latest)) {
                with_state(old(self)@, RaftState::Follower)
            } else {
                old(self)@
            },
    {
        let ghost n = self@;
        let ghost repl = ls@.repl;
        let ghost servers = n.configurations.latest;
        let lease = self.conf.leader_lease_timeout;
        let mut count: usize = 0;
        let mut max_diff = Duration::zero();
        let mut i: usize = 0;
        assert(servers.take(0) =~= Seq::empty());
        while i < self.configurations.latest.servers.len()
            invariant
                i <= self.configurations.latest.servers@.len(),
                self@ == n,
                n == old(self)@,
                repl == ls@.repl,
                distinct_peers(repl),
                servers == n.configurations.latest,
                lease@ == n.conf.leader_lease_timeout,
                count <= i,
                count == contacted_count(n, repl, servers.take(i as int), now),
                is_longest_silence(n, repl, servers.take(i as int), now, max_diff@),
            decreases self.configurations.latest.servers@.len() - i,
        {
            let ghost seen = servers.take(i as int);
            let ghost all = servers.take(i + 1);
            let ghost s = servers[i as int];
            let ghost before = max_diff@;
            proof {
                assert(all.drop_last() =~= seen);
                assert(all.last() == s);
                assert(s == self.configurations.latest.servers@[i as int]@);
            }
            let server = &self.configurations.latest.servers[i];
            if server.suffrage == ServerSuffrage::Voter {
                if same_text(server.id.as_str(), self.local_id.as_str()) {
                    count += 1;
                    proof {
                        lemma_silence_kept(n, repl, servers, now, i as int, before);
                    }
                } else {
                    match ls.position(server.id.as_str()) {
                        Some(k) => {
                            let diff = now.since(&ls.repl[k].last_contact);
                            assert(repl[k as int] == ls.repl@[k as int]@);
                            assert(diff@ == span(repl[k as int].last_contact, now));
                            if !lease.shorter_than(&diff) {
                                assert(within_lease(repl, s.id, lease@, now));
                                count += 1;
                                max_diff = max_diff.longer(&diff);
                                proof {
                                    lemma_silence_extended(
                                        n,
                                        repl,
                                        servers,
                                        now,
                                        i as int,
                                        before,
                                        k as int,
                                    );
                                }
                            } else {
                                assert(!within_lease(repl, s.id, lease@, now)) by {
                                    if within_lease(repl, s.id, lease@, now) {
                                        let j = choose|j: int|
                                            0 <= j < repl.len() && (#[trigger] repl[j]).peer.id
                                                == s.id && span(repl[j].last_contact, now)
                                                <= lease@;
                                        if j < k {
                                            assert(repl[j].peer.id != repl[k as int].peer.id);
                                        } else if j > k {
                                            assert(repl[k as int].peer.id != repl[j].peer.id);
                                        }
                                    }
                                }
                                proof {
                                    lemma_silence_kept(n, repl, servers, now, i as int, before);
                                }
                            }
                        },
                        None => {
                            assert(!within_lease(repl, s.id, lease@, now)) by {
                                if within_lease(repl, s.id, lease@, now) {
                                    assert(replicated(repl, s.id));
                                }
                            }
                            proof {
                                lemma_silence_kept(n, repl, servers, now, i as int, before);
                            }
                        },
                    }
                }
            } else {
                proof {
                    lemma_silence_kept(n, repl, servers, now, i as int, before);
                }
            }
            i += 1;
        }
        assert(servers.take(i as int) =~= servers);
        // Verify we can contact a quorum.
        if count < self.configurations.latest.quorum_size() {
            self.set_state(RaftState::Follower);
        }
        max_diff
    }

    /// Picks any voter in the latest configuration other than this node, for
    /// use as the default target of a leadership transfer.
    pub fn pick_server_for_transfer(&self) -> (r: Option<Server>)
        ensures
            match r {
                Some(server) => exists|k: int| #[trigger]
                    is_first_transferable(self@, k) && server@ == self@.configurations.latest[k],
                None => !has_transferable(self@),
            },
    {
        let servers = &self.configurations.latest.servers;
        let mut i: usize = 0;
        while i < servers.len()
            invariant
                i <= servers@.len(),
                servers == self.configurations.latest.servers,
                forall|j: int|
                    0 <= j < i ==> !transferable(
                        self@,
                        #[trigger] self@.configurations.latest[j],
                    ),
            decreases servers@.len() - i,
        {
            assert(self@.configurations.latest[i as int] == servers@[i as int]@);
            if servers[i].suffrage == ServerSuffrage::Voter && !same_text(
                servers[i].id.as_str(),
                self.local_id.as_str(),
            ) {
                assert(is_first_transferable(self@, i as int));
                return Some(servers[i].clone());
            }
            i += 1;
        }
        None
    }

    /// Starts a leadership transfer to the named server, or to any voter
    /// other than this node, or says why that cannot be.
    pub fn begin_transfer(
        &self,
        ls: &mut LeaderState,
        id: Option<ServerID>,
        address: Option<ServerAddress>,
    ) -> (r: Result<TransferTarget>)
        ensures
            final(ls)@ == if r is Ok {
                LeaderView { transferring: true, ..old(ls)@ }
            } else {
                old(ls)@
            },
            match r {
                Ok(target) => {
                    &&& !old(ls)@.transferring
                    &&& replicated(old(ls)@.repl, target.id@)
                    &&& match (id, address) {
                        (Some(i), Some(a)) => target.id@ == i@ && target.address@ == a@,
                        _ => exists|k: int| #[trigger]
                            is_first_transferable(self@, k) && target.id@
                                == self@.configurations.latest[k].id && target.address@
                                == self@.configurations.latest[k].address,
                    }
                },
                Err(RaftError::LeadershipTransferInProgress) => old(ls)@.transferring,
                Err(RaftError::Other(text)) => {
                    &&& !old(ls)@.transferring
                    &&& match (id, address) {
                        (Some(i), Some(_)) => !replicated(old(ls)@.repl, i@) && text@
                            == "cannot find replication state for "@ + i@,
                        _ => if has_transferable(self@) {
                            exists|k: int| #[trigger]
                                is_first_transferable(self@, k) && !replicated(
                                    old(ls)@.repl,
                                    self@.configurations.latest[k].id,
                                ) && text@ == "cannot find replication state for "@
                                    + self@.configurations.latest[k].id
                        } else {
                            text@ == "cannot find peer for leadership transfer"@
                        },
                    }
                },
                Err(_) => false,
            },
    {
        if ls.leadership_transfer_in_progress {
            return Err(RaftError::LeadershipTransferInProgress);
        }
        let (id, address): (ServerID, ServerAddress) = match (id, address) {
            (Some(id), Some(address)) => (id, address),
            _ => match self.pick_server_for_transfer() {
                Some(server) => (server.id, server.address),
                None => {
                    return Err(
                        RaftError::Other("cannot find peer for leadership transfer".to_owned()),
                    );
                },
            },
        };
        match ls.position(id.as_str()) {
            Some(k) => {
                assert(ls@.repl[k as int].peer.id == id@);
                ls.leadership_transfer_in_progress = true;
                Ok(TransferTarget { id, address })
            },
            None => {
                let text = joined("cannot find replication state for ", id.as_str());
                assert(text@ == "cannot find replication state for "@ + id@);
                Err(RaftError::Other(text))
            },
        }
    }

    /// Concludes a leadership transfer, whatever came of it.
    pub fn end_transfer(ls: &mut LeaderState)
        ensures
            final(ls)@ == (LeaderView { transferring: false, ..old(ls)@ }),
    {
        ls.leadership_transfer_in_progress = false;
    }

    /// What to do while the target of a transfer, whose next index is given,
    /// catches up.
    pub fn transfer_step(&self, next_index: u64, id: &str, now: Instant, deadline: Instant) -> (r:
        TransferStep)
        ensures
            if next_index > self@.shared.last_log.0 {
                r is Send
            } else if now.nanos >= deadline.nanos {
                r matches TransferStep::TimedOut(RaftError::Other(text)) && text@
                    == "leadership transfer timeout: target "@ + id@ + " did not catch up"@
            } else {
                r is Wait
            },
    {
        if next_index > self.shared.last_log_index() {
            return TransferStep::Send;
        }
        if now.nanos >= deadline.nanos {
            let mut text = joined("leadership transfer timeout: target ", id);
            text.append(" did not catch up");
            return TransferStep::TimedOut(RaftError::Other(text));
        }
        TransferStep::Wait
    }

    /// Whether leadership was handed over, by the target's reply to the
    /// request to start an election.
    pub fn transfer_answer(reply: Result<TimeoutNowResponse>, id: &str) -> (r: Result<()>)
        ensures
            match reply {
                Ok(_) => r is Ok,
                Err(e) => r matches Err(RaftError::Other(text)) && step_text(
                    "failed to make TimeoutNow RPC to "@ + id@ + ": "@,
                    e,
                    text@,
                ),
            },
    {
        match reply {
            Ok(_) => Ok(()),
            Err(e) => {
                let mut step = joined("failed to make TimeoutNow RPC to ", id);
                step.append(": ");
                Err(failed_step(step.as_str(), &e))
            },
        }
    }

    /// True if it is safe to process configuration changes: the latest
    /// configuration is committed, and this leader has committed an entry
    /// (the noop) in this term.
    pub fn configuration_change_stable(&self, ls: &LeaderState) -> (r: bool)
        ensures
            r == (self@.configurations.latest_index == self@.configurations.committed_index
                && self@.shared.commit_index >= ls@.commitment.start_index),
    {
        self.configurations.latest_index == self.configurations.committed_index
            && self.shared.commit_index() >= ls.commitment.start_index()
    }

    /// The configuration that a change leads to, or why it is refused.
    pub fn prepare_configuration_change(&self, req: &ConfigurationChangeRequest) -> (r: Result<
        Configuration,
    >)
        ensures
            ({
                let latest = self@.configurations.latest_index;
                let next = changed_servers(
                    self@.configurations.latest,
                    req.command,
                    req.server_id@,
                    req.server_address@,
                );
                if req.prev_index > 0 && req.prev_index != latest {
                    r matches Err(RaftError::Other(text)) && text@ == configuration_changed(
                        req.prev_index,
                        latest,
                    )
                } else if valid_servers(next) {
                    r matches Ok(conf) && conf@ == next
                } else {
                    r matches Err(RaftError::Configuration(text)) && first_fault(next, text@)
                }
            }),
    {
        let latest: u64 = self.configurations.latest_index;
        if req.prev_index > 0 && req.prev_index != latest {
            let mut text = "configuration changed since ".to_owned();
            push_decimal(&mut text, req.prev_index as u128);
            text.append(" (latest is ");
            push_decimal(&mut text, latest as u128);
            text.append(")");
            return Err(RaftError::Other(text));
        }
        next_configuration(&self.configurations.latest, req)
    }

    /// Adds a configuration entry with the encoded configuration to the log
    /// and puts the configuration to use.
    pub fn append_configuration_entry<L: LogStore>(
        &mut self,
        ls: &mut LeaderState,
        logs: &mut L,
        configuration: Configuration,
        data: Vec<u8>,
        ticket: Option<u64>,
        now: Instant,
    ) -> (r: (Dispatch, ReplicationChanges))
        requires
            old(self)@.shared.spec_last_index() + 1 < u64::MAX,
            distinct_peers(old(ls)@.repl),
        ensures
            exists|n: NodeView, l: LeaderView|
                {
                    &&& #[trigger] entry_dispatched(
                        old(self)@,
                        old(ls)@,
                        *old(logs),
                        configuration_entry(data@, ticket),
                        now,
                        r.0,
                        n,
                        l,
                        *final(logs),
                    )
                    &&& put_to_use(n, l, configuration@, now, r.1, final(self)@, final(ls)@)
                },
            distinct_peers(final(ls)@.repl),
    {
        let mut log = Log::default();
        log.log_type = LogType::Configuration;
        log.data = data;
        let mut batch: Vec<LogFuture> = Vec::new();
        batch.push(LogFuture { log, ticket });
        let ghost entry = configuration_entry(data@, ticket);
        assert(future_views(batch@) =~= seq![entry]);
        let dispatch = self.dispatch_logs(ls, logs, batch, now);
        let ghost n = self@;
        let ghost l = ls@;
        // The dispatched entry was the last one written.
        let index: u64 = self.shared.last_index();
        self.set_latest_configuration(configuration.clone(), index);
        ls.commitment.set_configuration(&configuration);
        let ghost m = self@;
        assert(m == with_latest(n, configuration@, n.shared.spec_last_index()));
        let changes = self.start_stop_replication(ls, now);
        assert(put_to_use(n, l, configuration@, now, changes, self@, ls@));
        let r = (dispatch, changes);
        assert(entry_dispatched(
            old(self)@,
            old(ls)@,
            *old(logs),
            configuration_entry(data@, ticket),
            now,
            r.0,
            n,
            l,
            *logs,
        ));
        r
    }

    /// Whether another entry of a client may join the ones that are ready to
    /// be written together.
    pub fn gathers_more(&self, ready: usize) -> (r: bool)
        ensures
            r == (ready <= self@.conf.max_append_entries),
    {
        ready <= self.conf.max_append_entries
    }

    /// Why a new entry of a client is refused, if it is: while leadership is
    /// handed over, or while this node, no longer a voter, is about to give it
    /// up.
    pub fn apply_refusal(ls: &LeaderState) -> (r: Option<RaftError>)
        ensures
            r == if ls@.transferring {
                Some(RaftError::LeadershipTransferInProgress)
            } else if ls@.step_down {
                Some(RaftError::NotLeader)
            } else {
                None
            },
    {
        if ls.leadership_transfer_in_progress {
            Some(RaftError::LeadershipTransferInProgress)
        } else if ls.step_down {
            Some(RaftError::NotLeader)
        } else {
            None
        }
    }

    /// Why the restore of a user's snapshot is refused, if it is: while
    /// leadership is handed over.
    pub fn restore_refusal(ls: &LeaderState) -> (r: Option<RaftError>)
        ensures
            r == if ls@.transferring {
                Some(RaftError::LeadershipTransferInProgress)
            } else {
                None
            },
    {
        if ls.leadership_transfer_in_progress {
            Some(RaftError::LeadershipTransferInProgress)
        } else {
            None
        }
    }

    /// Plans the restore of a user's snapshot: the current configuration is
    /// used, not the one from the snapshot, and what is in flight is aborted.
    pub fn begin_restore(&self, ls: &mut LeaderState, meta: &SnapshotMeta) -> (r: Result<
        RestorePlan,
    >)
        requires
            restored_index(self@, meta.index) <= u64::MAX,
        ensures
            ({
                let c = self@.configurations;
                if meta.version == 0 || meta.version > SNAPSHOT_VERSION_MAX {
                    &&& r matches Err(RaftError::Other(text)) && text@
                        == "unsupported snapshot version "@ + decimal(meta.version as nat)
                    &&& final(ls)@ == old(ls)@
                } else if c.committed_index != c.latest_index {
                    &&& r matches Err(RaftError::Other(text)) && text@ == wait_for_configuration(
                        "restore"@,
                        c.latest_index,
                        c.committed_index,
                    )
                    &&& final(ls)@ == old(ls)@
                } else {
                    &&& r matches Ok(plan) && plan.create.version == meta.version
                        && plan.create.index == restored_index(self@, meta.index)
                        && plan.create.term == self@.shared.current_term
                        && plan.create.configuration@ == c.latest
                        && plan.create.configuration_index == c.latest_index && all_failed(
                        plan.aborted@,
                        old(ls)@.inflight,
                        Loss::Restore,
                    )
                    &&& final(ls)@ == (LeaderView { inflight: Seq::empty(), ..old(ls)@ })
                }
            }),
    {
        // Sanity check the version.
        if meta.version == 0 || meta.version > SNAPSHOT_VERSION_MAX {
            return Err(RaftError::Other(unsupported_version(meta.version)));
        }
        // We don't support snapshots while there's a config change
        // outstanding since the snapshot doesn't have a means to represent
        // this state.
        let committed_index: u64 = self.configurations.committed_index;
        let latest_index: u64 = self.configurations.latest_index;
        if committed_index != latest_index {
            return Err(
                RaftError::Other(
                    wait_for_configuration_text("restore", latest_index, committed_index),
                ),
            );
        }
        // Cancel any inflight requests.
        let mut futures: Vec<LogFuture> = Vec::new();
        std::mem::swap(&mut futures, &mut ls.inflight);
        assert(future_views(ls.inflight@) =~= Seq::empty());
        let aborted = fail_all(&futures, &Loss::Restore);
        let last: u64 = self.shared.last_index();
        let index: u64 = if meta.index > last {
            meta.index + 1
        } else {
            last + 1
        };
        Ok(
            RestorePlan {
                create: SnapshotPlan {
                    version: meta.version,
                    index,
                    term: self.shared.current_term(),
                    configuration: self.configurations.latest.clone(),
                    configuration_index: latest_index,
                },
                aborted,
            },
        )
    }

    /// Concludes the restore of a user's snapshot: it looks as if the index
    /// that it burned was stored, applied and covered by a snapshot.
    pub fn finish_restore(&mut self, index: u64, term: u64)
        ensures
            final(self)@ == (NodeView {
                shared: RaftSharedState {
                    last_log: (index, term),
                    last_applied: index,
                    last_snapshot: (index, term),
                    ..old(self)@.shared
                },
                ..old(self)@
            }),
    {
        self.shared.set_last_log(index, term);
        self.shared.set_last_applied(index);
        self.shared.set_last_snapshot(index, term);
    }

    /// Concludes leadership: what was in flight and what was to be verified
    /// all fails for lost leadership, and is returned in this order. The last contact is
    /// set, so that to a client our data does not look extremely stale from
    /// before we were the leader, and where this node is still taken for the
    /// leader, no leader is known.
    pub fn end_leadership(&mut self, ls: LeaderState, now: Instant) -> (r: (
        Vec<FailedRequest>,
        Vec<FailedRequest>,
    ))
        ensures
            all_failed(r.0@, ls@.inflight, Loss::Leadership),
            all_unverified(r.1@, ls@.notify, Loss::Leadership),
            final(self)@ == if old(self)@.leader_addr == old(self)@.local_addr && old(
                self,
            )@.leader_id == old(self)@.local_id {
                NodeView {
                    leader_addr: Seq::empty(),
                    leader_id: Seq::empty(),
                    ..with_contact(old(self)@, now)
                }
            } else {
                with_contact(old(self)@, now)
            },
    {
        self.shared.set_last_contact(now);
        if same_text(self.leader_addr.as_str(), self.local_addr.as_str()) && same_text(
            self.leader_id.as_str(),
            self.local_id.as_str(),
        ) {
            self.leader_addr = String::new();
            self.leader_id = String::new();
        }
        let lost = fail_all(&ls.inflight, &Loss::Leadership);
        let unverified = fail_verifications(&ls.notify, &Loss::Leadership);
        (lost, unverified)
    }
}

proof fn lemma_without_ticket(notify: Seq<PendingVerify>, ticket: u64)
    ensures
        forall|i: int|
            0 <= i < without_ticket(notify, ticket).len() ==> exists|j: int|
                0 <= j < notify.len() && notify[j] == #[trigger] without_ticket(
                    notify,
                    ticket,
                )[i],
        distinct_tickets(notify) ==> distinct_tickets(without_ticket(notify, ticket)),
        verifications_open(notify) ==> verifications_open(without_ticket(notify, ticket)),
    decreases notify.len(),
{
    if notify.len() > 0 {
        let front = notify.drop_last();
        let rest = without_ticket(front, ticket);
        let whole = without_ticket(notify, ticket);
        lemma_without_ticket(front, ticket);
        assert forall|i: int| 0 <= i < whole.len() implies exists|j: int|
            0 <= j < notify.len() && notify[j] == #[trigger] whole[i] by {
            if i < rest.len() {
                let j = choose|j: int| 0 <= j < front.len() && front[j] == rest[i];
                assert(notify[j] == whole[i]);
            } else {
                assert(notify[notify.len() - 1] == whole[i]);
            }
        }
        if distinct_tickets(notify) {
            assert forall|i: int, j: int| 0 <= i < j < front.len() implies (
            #[trigger] front[i]).ticket != (#[trigger] front[j]).ticket by {
                assert(notify[i].ticket != notify[j].ticket);
            }
            assert forall|i: int, j: int| 0 <= i < j < whole.len() implies (
            #[trigger] whole[i]).ticket != (#[trigger] whole[j]).ticket by {
                assert(whole[i] == rest[i]);
                if j < rest.len() {
                    assert(whole[j] == rest[j]);
                } else {
                    let k = choose|k: int| 0 <= k < front.len() && front[k] == rest[i];
                    assert(notify[k].ticket != notify[notify.len() - 1].ticket);
                }
            }
        }
    }
}

/// The complaint about a snapshot of another version.
pub fn unsupported_version(version: u8) -> (r: String)
    ensures
        r@ == "unsupported snapshot version "@ + decimal(version as nat),
{
    let mut text = "unsupported snapshot version ".to_owned();
    push_decimal(&mut text, version as u128);
    text
}

/// The complaint about a snapshot of which more or less came than announced.
pub open spec fn wrong_size(came: u64, announced: u64) -> Seq<char> {
    "failed to write snapshot, size didn't match ("@ + decimal(came as nat) + " != "@ + decimal(
        announced as nat,
    ) + ")"@
}

/// The complaint about a snapshot of which more or less came than announced.
pub fn wrong_size_text(came: u64, announced: u64) -> (r: String)
    ensures
        r@ == wrong_size(came, announced),
{
    let mut text = "failed to write snapshot, size didn't match (".to_owned();
    push_decimal(&mut text, came as u128);
    text.append(" != ");
    push_decimal(&mut text, announced as u128);
    text.append(")");
    text
}

proof fn lemma_silence_kept(
    n: NodeView,
    repl: Seq<ReplicationView>,
    servers: Seq<ServerView>,
    now: Instant,
    i: int,
    silence: nat,
)
    requires
        0 <= i < servers.len(),
        is_longest_silence(n, repl, servers.take(i), now, silence),
        !contacted(n, repl, servers[i], now) || servers[i].id == n.local_id,
    ensures
        is_longest_silence(n, repl, servers.take(i + 1), now, silence),
{
    let seen = servers.take(i);
    let all = servers.take(i + 1);
    assert forall|j: int, k: int|
        #![trigger all[j], repl[k]]
        0 <= j < all.len() && 0 <= k < repl.len() && contacted(n, repl, all[j], now) && all[j].id
            != n.local_id && repl[k].peer.id == all[j].id implies span(repl[k].last_contact, now)
        <= silence by {
        assert(j < i);
        assert(seen[j] == all[j]);
    }
    if silence != 0 {
        let (j, k) = choose|j: int, k: int|
            #![trigger seen[j], repl[k]]
            0 <= j < seen.len() && 0 <= k < repl.len() && contacted(n, repl, seen[j], now)
                && seen[j].id != n.local_id && repl[k].peer.id == seen[j].id && span(
                repl[k].last_contact,
                now,
            ) == silence;
        assert(all[j] == seen[j]);
        assert(repl[k].peer.id == all[j].id);
    }
}

proof fn lemma_silence_extended(
    n: NodeView,
    repl: Seq<ReplicationView>,
    servers: Seq<ServerView>,
    now: Instant,
    i: int,
    silence: nat,
    p: int,
)
    requires
        0 <= i < servers.len(),
        0 <= p < repl.len(),
        distinct_peers(repl),
        is_longest_silence(n, repl, servers.take(i), now, silence),
        contacted(n, repl, servers[i], now),
        servers[i].id != n.local_id,
        repl[p].peer.id == servers[i].id,
    ensures
        is_longest_silence(
            n,
            repl,
            servers.take(i + 1),
            now,
            if silence >= span(repl[p].last_contact, now) {
                silence
            } else {
                span(repl[p].last_contact, now)
            },
        ),
{
    let seen = servers.take(i);
    let all = servers.take(i + 1);
    let here = span(repl[p].last_contact, now);
    let longest = if silence >= here {
        silence
    } else {
        here
    };
    assert forall|j: int, k: int|
        #![trigger all[j], repl[k]]
        0 <= j < all.len() && 0 <= k < repl.len() && contacted(n, repl, all[j], now) && all[j].id
            != n.local_id && repl[k].peer.id == all[j].id implies span(repl[k].last_contact, now)
        <= longest by {
        if j < i {
            assert(seen[j] == all[j]);
        } else if k < p {
            assert(repl[k].peer.id != repl[p].peer.id);
        } else if k > p {
            assert(repl[p].peer.id != repl[k].peer.id);
        }
    }
    if longest != 0 {
        if silence >= here {
            let (j, k) = choose|j: int, k: int|
                #![trigger seen[j], repl[k]]
                0 <= j < seen.len() && 0 <= k < repl.len() && contacted(n, repl, seen[j], now)
                    && seen[j].id != n.local_id && repl[k].peer.id == seen[j].id && span(
                    repl[k].last_contact,
                    now,
                ) == silence;
            assert(all[j] == seen[j]);
            assert(repl[k].peer.id == all[j].id);
        } else {
            assert(all[i] == servers[i]);
            assert(repl[p].peer.id == all[i].id);
        }
    }
}

/// A restored snapshot gets an index that neither the log nor the snapshot
/// reaches, so that no entry of the log is taken for part of it.
pub proof fn law_restore_leaves_a_hole(n: NodeView, meta_index: u64)
    ensures
        restored_index(n, meta_index) > n.shared.spec_last_index(),
        restored_index(n, meta_index) > meta_index,
{
}

/// Only voters count as contacted: a lease that holds rests on a majority of
/// the voters.
pub proof fn law_contacts_are_voters(
    n: NodeView,
    repl: Seq<ReplicationView>,
    now: Instant,
    servers: Seq<ServerView>,
)
    ensures
        contacted_count(n, repl, servers, now) <= voter_count(servers),
    decreases servers.len(),
{
    if servers.len() > 0 {
        law_contacts_are_voters(n, repl, now, servers.drop_last());
    }
}

} // verus!
