//! The leader's side: its followers, the entries in flight, and what it does
//! when something happens.

use crate::append::{lemma_with_logs_run, logs_match, with_last_log, without_holes};
use crate::apply::{all_known, applies, unread_in, with_applied, Applying, FutureView, LogFuture};
use crate::commitment::{carried_over, Commitment, CommitmentView};
use crate::configuration::{member_of, votes_in, Server, ServerView};
use crate::error::{says, RaftError, Result};
use crate::future::VerifyState;
use crate::log::{
    log_views, same_entry, storing_answered, with_logs, written_as, Log, LogStore, LogType,
    LogView,
};
use crate::observer::{ObservationData, ObservationView, PeerObservation};
use crate::raft::{latest_is_committed, with_observation, with_state, Fatal, NodeView, RaftCore};
use crate::replication::{matched_index, FollowerReplication, ReplicationView};
use crate::state::{RaftSharedState, RaftState};
use crate::text::same_text;
use crate::time::Instant;
use std::collections::HashMap;
use vstd::prelude::*;

verus! {

/// A pending verification that this node still leads.
#[derive(Debug, Clone, Copy, PartialEq, Eq, Structural)]
pub struct PendingVerify {
    pub ticket: u64,
    pub state: VerifyState,
}

/// State used only while leader.
pub struct LeaderState {
    pub commitment: Commitment,
    /// Entries in flight, in log index order.
    pub inflight: Vec<LogFuture>,
    /// Replication to each follower; no ID occurs twice.
    pub repl: Vec<FollowerReplication>,
    /// Pending verifications.
    pub notify: Vec<PendingVerify>,
    pub leadership_transfer_in_progress: bool,
    /// Whether an entry is in flight that removes this node from the
    /// cluster; no new entries may be processed then.
    pub step_down: bool,
}

/// What a [`LeaderState`] holds.
#[verifier::ext_equal]
pub struct LeaderView {
    pub commitment: CommitmentView,
    pub inflight: Seq<FutureView>,
    pub repl: Seq<ReplicationView>,
    pub notify: Seq<PendingVerify>,
    pub transferring: bool,
    pub step_down: bool,
}

/// What a list of entries in flight says, one by one.
pub open spec fn future_views(futures: Seq<LogFuture>) -> Seq<FutureView> {
    futures.map_values(|f: LogFuture| f@)
}

/// What a list of followers says, one by one.
pub open spec fn replication_views(repl: Seq<FollowerReplication>) -> Seq<ReplicationView> {
    repl.map_values(|r: FollowerReplication| r@)
}

impl View for LeaderState {
    type V = LeaderView;

    open spec fn view(&self) -> LeaderView {
        LeaderView {
            commitment: self.commitment@,
            inflight: future_views(self.inflight@),
            repl: replication_views(self.repl@),
            notify: self.notify@,
            transferring: self.leadership_transfer_in_progress,
            step_down: self.step_down,
        }
    }
}

/// Whether a follower of this ID is replicated to.
pub open spec fn replicated(repl: Seq<ReplicationView>, id: Seq<char>) -> bool {
    exists|i: int| 0 <= i < repl.len() && (#[trigger] repl[i]).peer.id == id
}

/// No follower is listed twice.
pub open spec fn distinct_peers(repl: Seq<ReplicationView>) -> bool {
    forall|i: int, j: int|
        0 <= i < j < repl.len() ==> (#[trigger] repl[i]).peer.id != (#[trigger] repl[j]).peer.id
}

/// Replication to a follower that is new: it starts after the end of the log.
pub open spec fn fresh_replication(n: NodeView, s: ServerView, now: Instant) -> ReplicationView {
    ReplicationView {
        peer: s,
        current_term: n.shared.current_term,
        next_index: (n.shared.spec_last_index() + 1) as u64,
        last_contact: now,
        notify: Seq::empty(),
        failures: 0,
    }
}

/// The followers after a server of the configuration was looked at: one that
/// is known gets its new address, one that is not is added.
pub open spec fn with_server_replicated(
    n: NodeView,
    repl: Seq<ReplicationView>,
    s: ServerView,
    now: Instant,
) -> Seq<ReplicationView> {
    if s.id == n.local_id {
        repl
    } else if replicated(repl, s.id) {
        repl.map_values(
            |r: ReplicationView|
                if r.peer.id == s.id && r.peer.address != s.address {
                    ReplicationView { peer: s, ..r }
                } else {
                    r
                },
        )
    } else {
        repl.push(fresh_replication(n, s, now))
    }
}

/// The followers after all these servers were looked at, in order.
pub open spec fn with_servers_replicated(
    n: NodeView,
    repl: Seq<ReplicationView>,
    servers: Seq<ServerView>,
    now: Instant,
) -> Seq<ReplicationView>
    decreases servers.len(),
{
    if servers.len() == 0 {
        repl
    } else {
        with_server_replicated(
            n,
            with_servers_replicated(n, repl, servers.drop_last(), now),
            servers.last(),
            now,
        )
    }
}

/// The servers among these that are not replicated to yet, in order.
pub open spec fn newly_replicated(
    n: NodeView,
    repl: Seq<ReplicationView>,
    servers: Seq<ServerView>,
    now: Instant,
) -> Seq<ServerView>
    decreases servers.len(),
{
    if servers.len() == 0 {
        Seq::empty()
    } else {
        let before = newly_replicated(n, repl, servers.drop_last(), now);
        let known = with_servers_replicated(n, repl, servers.drop_last(), now);
        if servers.last().id != n.local_id && !replicated(known, servers.last().id) {
            before.push(servers.last())
        } else {
            before
        }
    }
}

/// Whether a follower is still in the configuration.
pub open spec fn still_wanted(n: NodeView, r: ReplicationView) -> bool {
    r.peer.id != n.local_id && member_of(n.configurations.latest, r.peer.id)
}

/// The followers that are still in the configuration, in order.
pub open spec fn wanted_replication(n: NodeView, repl: Seq<ReplicationView>) -> Seq<
    ReplicationView,
>
    decreases repl.len(),
{
    if repl.len() == 0 {
        repl
    } else if still_wanted(n, repl.last()) {
        wanted_replication(n, repl.drop_last()).push(repl.last())
    } else {
        wanted_replication(n, repl.drop_last())
    }
}

/// The followers that are no longer in the configuration, in order.
pub open spec fn unwanted_replication(n: NodeView, repl: Seq<ReplicationView>) -> Seq<
    ReplicationView,
>
    decreases repl.len(),
{
    if repl.len() == 0 {
        repl
    } else if still_wanted(n, repl.last()) {
        unwanted_replication(n, repl.drop_last())
    } else {
        unwanted_replication(n, repl.drop_last()).push(repl.last())
    }
}

/// The node after it observed that peers were added.
pub open spec fn observed_added(n: NodeView, peers: Seq<ServerView>) -> NodeView
    decreases peers.len(),
{
    if peers.len() == 0 {
        n
    } else {
        with_observation(
            observed_added(n, peers.drop_last()),
            ObservationView::Peer { peer: peers.last(), removed: false },
        )
    }
}

/// The node after it observed that peers were removed.
pub open spec fn observed_removed(n: NodeView, peers: Seq<ReplicationView>) -> NodeView
    decreases peers.len(),
{
    if peers.len() == 0 {
        n
    } else {
        with_observation(
            observed_removed(n, peers.drop_last()),
            ObservationView::Peer { peer: peers.last().peer, removed: true },
        )
    }
}

/// Which replication is to be started and stopped; what is stopped makes a
/// best effort up to the last index first.
#[derive(Debug)]
pub struct ReplicationChanges {
    pub started: Vec<Server>,
    pub stopped: Vec<Server>,
    pub last_index: u64,
}

/// The entries of a batch as the leader writes them: numbered from the end
/// of its log on, in its term.
pub open spec fn dispatched(
    futures: Seq<FutureView>,
    last_index: u64,
    term: u64,
    now: Instant,
) -> Seq<FutureView> {
    Seq::new(
        futures.len(),
        |i: int|
            FutureView {
                log: LogView {
                    index: (last_index + 1 + i) as u64,
                    term,
                    appended_at: Some(now),
                    ..futures[i].log
                },
                ticket: futures[i].ticket,
            },
    )
}

/// The log entries of a batch.
pub open spec fn logs_of(futures: Seq<FutureView>) -> Seq<LogView> {
    futures.map_values(|f: FutureView| f.log)
}

/// Why what a leader had taken on fails.
#[derive(Debug)]
pub enum Loss {
    /// A user's snapshot is restored.
    Restore,
    /// Leadership was lost.
    Leadership,
    /// The entries could not be written, for this reason.
    Write(String),
}

/// Whether this is the error that a loss is answered with.
pub open spec fn error_of(why: Loss, e: RaftError) -> bool {
    match why {
        Loss::Restore => e is AbortedByRestore,
        Loss::Leadership => e is LeadershipLost,
        Loss::Write(message) => e matches RaftError::Other(text) && text@ == message@,
    }
}

impl Loss {
    /// The error that a loss is answered with.
    pub fn error(&self) -> (r: RaftError)
        ensures
            error_of(*self, r),
    {
        match self {
            Loss::Restore => RaftError::AbortedByRestore,
            Loss::Leadership => RaftError::LeadershipLost,
            Loss::Write(message) => RaftError::Other(message.clone()),
        }
    }
}

/// A request that failed: the ticket of the client that waits for it, if one
/// does, and the error that it is answered with.
#[derive(Debug)]
pub struct FailedRequest {
    pub ticket: Option<u64>,
    pub error: RaftError,
}

/// Whether every entry in flight, in order, is answered with the error of a
/// loss.
pub open spec fn all_failed(
    failed: Seq<FailedRequest>,
    inflight: Seq<FutureView>,
    why: Loss,
) -> bool {
    &&& failed.len() == inflight.len()
    &&& forall|i: int|
        0 <= i < failed.len() ==> (#[trigger] failed[i]).ticket == inflight[i].ticket && error_of(
            why,
            failed[i].error,
        )
}

/// Whether every pending verification, in order, is answered with the error of
/// a loss.
pub open spec fn all_unverified(
    failed: Seq<FailedRequest>,
    notify: Seq<PendingVerify>,
    why: Loss,
) -> bool {
    &&& failed.len() == notify.len()
    &&& forall|i: int|
        0 <= i < failed.len() ==> (#[trigger] failed[i]).ticket == Some(notify[i].ticket)
            && error_of(why, failed[i].error)
}

/// Fails every entry in flight.
pub fn fail_all(futures: &Vec<LogFuture>, why: &Loss) -> (r: Vec<FailedRequest>)
    ensures
        all_failed(r@, future_views(futures@), *why),
{
    let mut failed: Vec<FailedRequest> = Vec::new();
    while failed.len() < futures.len()
        invariant
            failed@.len() <= futures@.len(),
            all_failed(
                failed@,
                future_views(futures@).take(failed@.len() as int),
                *why,
            ),
        decreases futures@.len() - failed@.len(),
    {
        let future = &futures[failed.len()];
        assert(future_views(futures@)[failed@.len() as int] == future@);
        failed.push(FailedRequest { ticket: future.ticket, error: why.error() });
    }
    assert(future_views(futures@).take(failed@.len() as int) =~= future_views(futures@));
    failed
}

/// Fails every pending verification.
pub fn fail_verifications(notify: &Vec<PendingVerify>, why: &Loss) -> (r: Vec<FailedRequest>)
    ensures
        all_unverified(r@, notify@, *why),
{
    let mut failed: Vec<FailedRequest> = Vec::new();
    while failed.len() < notify.len()
        invariant
            failed@.len() <= notify@.len(),
            all_unverified(failed@, notify@.take(failed@.len() as int), *why),
        decreases notify@.len() - failed@.len(),
    {
        let ticket: u64 = notify[failed.len()].ticket;
        failed.push(FailedRequest { ticket: Some(ticket), error: why.error() });
    }
    assert(notify@.take(failed@.len() as int) =~= notify@);
    failed
}

/// What came of a batch of new entries.
#[derive(Debug)]
pub enum Dispatch {
    /// The entries are written; the followers are to be sent them.
    Written,
    /// The entries could not be written: every entry in flight fails for the
    /// loss, and the node is a follower now.
    Failed { failed: Vec<FailedRequest>, loss: Loss },
}

/// The node and its leader state after a batch of new entries was written.
pub open spec fn dispatch_written(
    n: NodeView,
    ls: LeaderView,
    futures: Seq<FutureView>,
    now: Instant,
    after: NodeView,
    ls_after: LeaderView,
) -> bool {
    let last = n.shared.spec_last_index();
    let new = dispatched(futures, last, n.shared.current_term, now);
    let end = (last + futures.len()) as u64;
    &&& after == with_last_log(n, end, n.shared.current_term)
    &&& ls_after == (LeaderView {
        inflight: ls.inflight + new,
        commitment: ls_after.commitment,
        ..ls
    })
    &&& matched_index(ls.commitment, n.local_id, end, ls_after.commitment)
}

/// What a leader does after the commit index advanced.
#[derive(Debug, Clone, Copy, PartialEq, Eq, Structural)]
pub enum AfterCommit {
    Lead,
    /// This node was removed and shuts down.
    ShutDown,
    /// This node was removed and is a follower now.
    Follow,
}

/// What came of an advance of the commit index.
#[derive(Debug)]
pub struct Committed {
    pub applying: Applying,
    pub next: AfterCommit,
}

/// Whether a log store took entries, and was left so.
pub open spec fn write_taken<L: LogStore>(logs: L, entries: Seq<LogView>, now: L) -> bool {
    &&& exists|stored: Result<()>| #[trigger]
        storing_answered(logs, entries, stored) && stored is Ok
    &&& written_as(logs, with_logs(logs.entries(), entries), now)
}

/// Whether the log store fails to take entries, with what the loss says.
pub open spec fn write_refused<L: LogStore>(logs: L, entries: Seq<LogView>, loss: Loss) -> bool {
    loss matches Loss::Write(message) && exists|e: RaftError| #[trigger]
        storing_answered(logs, entries, Err(e)) && says(e, message@)
}

/// The number of entries in flight at the front that are committed.
pub open spec fn committed_prefix(inflight: Seq<FutureView>, commit_index: u64) -> nat
    decreases inflight.len(),
{
    if inflight.len() == 0 || inflight[0].log.index > commit_index {
        0
    } else {
        1 + committed_prefix(inflight.drop_first(), commit_index)
    }
}

/// Entries in flight by index; of several with one index the last stands.
pub open spec fn by_index(futures: Seq<LogFuture>) -> Map<u64, LogFuture>
    decreases futures.len(),
{
    if futures.len() == 0 {
        Map::empty()
    } else {
        by_index(futures.drop_last()).insert(futures.last().log.index, futures.last())
    }
}

/// Whether a new commit index commits the latest configuration.
pub open spec fn commits_configuration(n: NodeView, commit_index: u64) -> bool {
    n.shared.commit_index < n.configurations.latest_index <= commit_index
}

/// The node after it took over the commit index of its followers.
pub open spec fn took_commit_index(n: NodeView, commit_index: u64) -> NodeView {
    let m = NodeView { shared: RaftSharedState { commit_index, ..n.shared }, ..n };
    if commits_configuration(n, commit_index) {
        latest_is_committed(m)
    } else {
        m
    }
}

/// Whether the leader is to leave once what is in flight is committed.
pub open spec fn leaves(n: NodeView, ls: LeaderView) -> bool {
    ls.step_down || (commits_configuration(n, ls.commitment.commit_index) && !votes_in(
        n.configurations.latest,
        n.local_id,
    ))
}

/// The node after it shut down, or became a follower, because it was removed.
pub open spec fn left(n: NodeView) -> NodeView {
    if !n.conf.shutdown_on_remove {
        with_state(n, RaftState::Follower)
    } else if n.shutdown {
        n
    } else {
        NodeView {
            shared: RaftSharedState { state: RaftState::Shutdown, ..n.shared },
            shutdown: true,
            ..n
        }
    }
}

/// What a list of servers says, one by one.
pub open spec fn peers_of(repl: Seq<ReplicationView>) -> Seq<ServerView> {
    repl.map_values(|r: ReplicationView| r.peer)
}

proof fn lemma_update_is_map(
    repl: Seq<ReplicationView>,
    k: int,
    s: ServerView,
)
    requires
        distinct_peers(repl),
        0 <= k < repl.len(),
        repl[k].peer.id == s.id,
    ensures
        repl.map_values(
            |r: ReplicationView|
                if r.peer.id == s.id && r.peer.address != s.address {
                    ReplicationView { peer: s, ..r }
                } else {
                    r
                },
        ) == if repl[k].peer.address != s.address {
            repl.update(k, ReplicationView { peer: s, ..repl[k] })
        } else {
            repl
        },
{
    let f = |r: ReplicationView|
        if r.peer.id == s.id && r.peer.address != s.address {
            ReplicationView { peer: s, ..r }
        } else {
            r
        };
    let goal = if repl[k].peer.address != s.address {
        repl.update(k, ReplicationView { peer: s, ..repl[k] })
    } else {
        repl
    };
    assert forall|i: int| 0 <= i < repl.len() implies repl.map_values(f)[i] == goal[i] by {
        if i < k {
            assert(repl[i].peer.id != repl[k].peer.id);
        } else if i > k {
            assert(repl[k].peer.id != repl[i].peer.id);
        }
    }
    assert(repl.map_values(f) =~= goal);
}

impl LeaderState {
    /// The position of a follower.
    pub fn position(&self, id: &str) -> (r: Option<usize>)
        ensures
            match r {
                Some(i) => i < self@.repl.len() && self@.repl[i as int].peer.id == id@,
                None => !replicated(self@.repl, id@),
            },
    {
        let mut i: usize = 0;
        while i < self.repl.len()
            invariant
                i <= self.repl@.len(),
                forall|j: int| 0 <= j < i ==> (#[trigger] self@.repl[j]).peer.id != id@,
            decreases self.repl@.len() - i,
        {
            assert(self@.repl[i as int] == self.repl@[i as int]@);
            if same_text(self.repl[i].peer.id.as_str(), id) {
                return Some(i);
            }
            i += 1;
        }
        None
    }
}

impl RaftCore {
    /// The state of a leader whose term begins: nothing is in flight, and the
    /// first index that may be committed follows the end of the log.
    pub fn begin_leadership(&self) -> (r: LeaderState)
        requires
            self@.shared.spec_last_index() < u64::MAX,
        ensures
            r@.commitment.matched == carried_over(Map::empty(), self@.configurations.latest),
            r@.commitment.commit_index == 0,
            r@.commitment.start_index == self@.shared.spec_last_index() + 1,
            !r@.commitment.notice,
            r@.inflight == Seq::<FutureView>::empty(),
            r@.repl == Seq::<ReplicationView>::empty(),
            r@.notify == Seq::<PendingVerify>::empty(),
            !r@.transferring,
            !r@.step_down,
    {
        let commitment = Commitment::new(
            &self.configurations.latest,
            self.shared.last_index() + 1,
        );
        let r = LeaderState {
            commitment,
            inflight: Vec::new(),
            repl: Vec::new(),
            notify: Vec::new(),
            leadership_transfer_in_progress: false,
            step_down: false,
        };
        assert(r@.inflight =~= Seq::<FutureView>::empty());
        assert(r@.repl =~= Seq::<ReplicationView>::empty());
        r
    }

    /// Replicates to one server of the configuration; returns whether that is
    /// new.
    fn replicate_server(&mut self, ls: &mut LeaderState, server: &Server, now: Instant) -> (new:
        bool)
        requires
            distinct_peers(old(ls)@.repl),
            old(self)@.shared.spec_last_index() < u64::MAX,
        ensures
            final(ls)@ == (LeaderView {
                repl: with_server_replicated(old(self)@, old(ls)@.repl, server@, now),
                ..old(ls)@
            }),
            distinct_peers(final(ls)@.repl),
            new == (server@.id != old(self)@.local_id && !replicated(old(ls)@.repl, server@.id)),
            final(self)@ == if new {
                with_observation(
                    old(self)@,
                    ObservationView::Peer { peer: server@, removed: false },
                )
            } else {
                old(self)@
            },
    {
        if same_text(server.id.as_str(), self.local_id.as_str()) {
            return false;
        }
        let ghost before = ls@.repl;
        match ls.position(server.id.as_str()) {
            Some(k) => {
                proof {
                    lemma_update_is_map(before, k as int, server@);
                }
                if !same_text(ls.repl[k].peer.address.as_str(), server.address.as_str()) {
                    ls.repl[k].peer = server.clone();
                    assert(ls@.repl =~= before.update(
                        k as int,
                        ReplicationView { peer: server@, ..before[k as int] },
                    ));
                }
                false
            },
            None => {
                self.observe(
                    ObservationData::Peer(
                        PeerObservation { peer: server.clone(), removed: false },
                    ),
                );
                let fresh = FollowerReplication {
                    peer: server.clone(),
                    current_term: self.shared.current_term(),
                    next_index: self.shared.last_index() + 1,
                    last_contact: now,
                    notify: Vec::new(),
                    failures: 0,
                };
                assert(fresh@.notify =~= Seq::<u64>::empty());
                ls.repl.push(fresh);
                assert(ls@.repl =~= before.push(fresh@));
                true
            },
        }
    }

    /// Sets up state and starts replication to new peers, and stops
    /// replication to removed peers (after a best-effort catch-up to the
    /// current index).
    pub fn start_stop_replication(&mut self, ls: &mut LeaderState, now: Instant) -> (r:
        ReplicationChanges)
        requires
            distinct_peers(old(ls)@.repl),
            old(self)@.shared.spec_last_index() < u64::MAX,
        ensures
            ({
                let n = old(self)@;
                let servers = n.configurations.latest;
                let all = with_servers_replicated(n, old(ls)@.repl, servers, now);
                let added = newly_replicated(n, old(ls)@.repl, servers, now);
                &&& final(ls)@ == (LeaderView { repl: wanted_replication(n, all), ..old(ls)@ })
                &&& distinct_peers(final(ls)@.repl)
                &&& crate::election::server_views(r.started@) == added
                &&& crate::election::server_views(r.stopped@) == peers_of(
                    unwanted_replication(n, all),
                )
                &&& r.last_index == n.shared.spec_last_index()
                &&& final(self)@ == observed_removed(
                    observed_added(n, added),
                    unwanted_replication(n, all),
                )
            }),
    {
        let ghost n = self@;
        let ghost servers = n.configurations.latest;
        let ghost repl = ls@.repl;
        let latest = self.configurations.latest.clone();
        let mut started: Vec<Server> = Vec::new();
        let mut i: usize = 0;
        assert(servers.take(0) =~= Seq::empty());
        assert(crate::election::server_views(started@) =~= Seq::empty());
        // Start replication that needs starting.
        while i < latest.servers.len()
            invariant
                i <= latest.servers@.len(),
                latest@ == servers,
                servers == n.configurations.latest,
                n == old(self)@,
                n.shared.spec_last_index() < u64::MAX,
                distinct_peers(ls@.repl),
                ls@ == (LeaderView {
                    repl: with_servers_replicated(n, repl, servers.take(i as int), now),
                    ..old(ls)@
                }),
                repl == old(ls)@.repl,
                crate::election::server_views(started@) == newly_replicated(
                    n,
                    repl,
                    servers.take(i as int),
                    now,
                ),
                self@ == observed_added(
                    n,
                    newly_replicated(n, repl, servers.take(i as int), now),
                ),
            decreases latest.servers@.len() - i,
        {
            let ghost so_far = newly_replicated(n, repl, servers.take(i as int), now);
            proof {
                assert(servers.take(i + 1).drop_last() =~= servers.take(i as int));
                assert(servers.take(i + 1).last() == latest.servers@[i as int]@);
                lemma_observing_keeps_the_rest(n, so_far);
                lemma_replicating_ignores_observations(
                    n,
                    self@,
                    ls@.repl,
                    latest.servers@[i as int]@,
                    now,
                );
            }
            let ghost before = started@;
            let new = self.replicate_server(ls, &latest.servers[i], now);
            if new {
                started.push(latest.servers[i].clone());
                assert(crate::election::server_views(started@)
                    =~= crate::election::server_views(before).push(servers[i as int]));
                assert(so_far.push(servers[i as int]).drop_last() =~= so_far);
            }
            i += 1;
        }
        assert(servers.take(i as int) =~= servers);
        // Stop replication that needs stopping.
        let ghost all = ls@.repl;
        let ghost added = newly_replicated(n, repl, servers, now);
        let ghost base = self@;
        let last_index: u64 = self.shared.last_index();
        let mut rest: Vec<FollowerReplication> = Vec::new();
        std::mem::swap(&mut rest, &mut ls.repl);
        let mut stopped: Vec<Server> = Vec::new();
        let ghost mut done: int = 0;
        proof {
            lemma_observing_keeps_the_rest(n, added);
            assert(all.take(0) =~= Seq::empty());
            assert(all.skip(0) =~= all);
            assert(replication_views(ls.repl@) =~= Seq::empty());
            assert(crate::election::server_views(stopped@) =~= Seq::empty());
            assert(peers_of(unwanted_replication(n, all.take(0))) =~= Seq::empty());
        }
        while rest.len() > 0
            invariant
                0 <= done <= all.len(),
                rest@.len() == all.len() - done,
                distinct_peers(all),
                replication_views(rest@) == all.skip(done),
                n == old(self)@,
                base == observed_added(n, added),
                ls@ == (LeaderView {
                    repl: wanted_replication(n, all.take(done)),
                    ..old(ls)@
                }),
                crate::election::server_views(stopped@) == peers_of(
                    unwanted_replication(n, all.take(done)),
                ),
                self@ == observed_removed(base, unwanted_replication(n, all.take(done))),
                self@.local_id == n.local_id,
                self@.configurations == n.configurations,
                self@.shared == n.shared,
            ensures
                done == all.len(),
            decreases rest@.len(),
        {
            let ghost rest_before = rest@;
            let r = rest.remove(0);
            proof {
                assert(r@ == all.skip(done)[0]);
                assert forall|i: int| 0 <= i < rest@.len() implies replication_views(rest@)[i]
                    == all.skip(done + 1)[i] by {
                    assert(rest@[i] == rest_before[i + 1]);
                    assert(replication_views(rest_before)[i + 1] == all.skip(done)[i + 1]);
                }
                assert(replication_views(rest@) =~= all.skip(done + 1));
                assert(all.take(done + 1).drop_last() =~= all.take(done));
                assert(all.take(done + 1).last() == r@);
            }
            let wanted = !same_text(r.peer.id.as_str(), self.local_id.as_str())
                && self.configurations.latest.contains(r.peer.id.as_str());
            assert(wanted == still_wanted(n, r@));
            if wanted {
                let ghost before = ls.repl@;
                ls.repl.push(r);
                assert(replication_views(ls.repl@) =~= replication_views(before).push(r@));
            } else {
                let ghost before = stopped@;
                let ghost unwanted = unwanted_replication(n, all.take(done));
                self.observe(
                    ObservationData::Peer(PeerObservation { peer: r.peer.clone(), removed: true }),
                );
                assert(unwanted.push(r@).drop_last() =~= unwanted);
                stopped.push(r.peer);
                assert(crate::election::server_views(stopped@)
                    =~= crate::election::server_views(before).push(r@.peer));
                assert(peers_of(unwanted.push(r@)) =~= peers_of(unwanted).push(r@.peer));
            }
            proof {
                done = done + 1;
            }
        }
        proof {
            assert(all.take(done) =~= all);
            lemma_wanted_stays_distinct(n, all);
        }
        ReplicationChanges { started, stopped, last_index }
    }

    /// Pushes logs to disk, marks them inflight and begins replication.
    pub fn dispatch_logs<L: LogStore>(
        &mut self,
        ls: &mut LeaderState,
        logs: &mut L,
        apply_logs: Vec<LogFuture>,
        now: Instant,
    ) -> (r: Dispatch)
        requires
            old(self)@.shared.spec_last_index() + apply_logs@.len() <= u64::MAX,
        ensures
            match r {
                Dispatch::Written => {
                    &&& dispatch_written(
                        old(self)@,
                        old(ls)@,
                        future_views(apply_logs@),
                        now,
                        final(self)@,
                        final(ls)@,
                    )
                    &&& write_taken(
                        *old(logs),
                        logs_of(
                            dispatched(
                                future_views(apply_logs@),
                                old(self)@.shared.spec_last_index(),
                                old(self)@.shared.current_term,
                                now,
                            ),
                        ),
                        *final(logs),
                    )
                    &&& exists|s: &mut L, v: &Vec<Log>, stored: Result<()>| #[trigger]
                        call_ensures(L::store_logs, (s, v), stored) && stored is Ok && *final(s)
                            == *final(logs)
                },
                Dispatch::Failed { failed, loss } => {
                    &&& all_failed(
                        failed@,
                        old(ls)@.inflight + dispatched(
                            future_views(apply_logs@),
                            old(self)@.shared.spec_last_index(),
                            old(self)@.shared.current_term,
                            now,
                        ),
                        loss,
                    )
                    &&& final(ls)@ == (LeaderView { inflight: Seq::empty(), ..old(ls)@ })
                    &&& final(self)@ == with_state(old(self)@, RaftState::Follower)
                    &&& write_refused(
                        *old(logs),
                        logs_of(
                            dispatched(
                                future_views(apply_logs@),
                                old(self)@.shared.spec_last_index(),
                                old(self)@.shared.current_term,
                                now,
                            ),
                        ),
                        loss,
                    )
                    &&& exists|s: &mut L, v: &Vec<Log>, e: RaftError| #[trigger]
                        call_ensures(L::store_logs, (s, v), Err::<(), RaftError>(e)) && *final(s)
                            == *final(logs)
                },
            },
    {
        let term: u64 = self.shared.current_term();
        let first: u64 = self.shared.last_index();
        let total: usize = apply_logs.len();
        let ghost given = future_views(apply_logs@);
        let ghost new = dispatched(given, first, term, now);
        let mut apply_logs = apply_logs;
        let mut written: Vec<Log> = Vec::new();
        let mut i: usize = 0;
        assert(log_views(written@) =~= logs_of(new.take(0)));
        while i < total
            invariant
                i <= total,
                total == apply_logs@.len(),
                total == given.len(),
                first + total <= u64::MAX,
                new == dispatched(given, first, term, now),
                forall|j: int| 0 <= j < i ==> (#[trigger] apply_logs@[j])@ == new[j],
                forall|j: int| i <= j < total ==> (#[trigger] apply_logs@[j])@ == given[j],
                log_views(written@) == logs_of(new.take(i as int)),
            decreases total - i,
        {
            let ghost written_before = written@;
            apply_logs[i].log.index = first + 1 + i as u64;
            apply_logs[i].log.term = term;
            apply_logs[i].log.appended_at = Some(now);
            assert(apply_logs@[i as int]@ =~= new[i as int]);
            written.push(apply_logs[i].log.clone());
            assert(log_views(written@) =~= log_views(written_before).push(new[i as int].log));
            assert(logs_of(new.take(i + 1)) =~= logs_of(new.take(i as int)).push(
                new[i as int].log,
            ));
            i += 1;
        }
        assert(new.take(i as int) =~= new);
        assert(future_views(apply_logs@) =~= new);
        let ghost before = ls.inflight@;
        let ghost batch = apply_logs@;
        ls.inflight.append(&mut apply_logs);
        assert(future_views(ls.inflight@) =~= future_views(before) + future_views(batch));
        // Write the log entries locally.
        let given_logs = &written;
        let stored = logs.store_logs(given_logs);
        assert(exists|s: &mut L|
            *s == *old(logs) && #[trigger] call_ensures(L::store_logs, (s, given_logs), stored)
                && *final(s) == *logs);
        assert(storing_answered(*old(logs), logs_of(new), stored));
        match stored {
            Ok(()) => {},
            Err(e) => {
                let loss = Loss::Write(e.message());
                let mut futures: Vec<LogFuture> = Vec::new();
                std::mem::swap(&mut futures, &mut ls.inflight);
                assert(future_views(ls.inflight@) =~= Seq::empty());
                let failed = fail_all(&futures, &loss);
                self.set_state(RaftState::Follower);
                return Dispatch::Failed { failed, loss };
            },
        }
        let last_index: u64 = first + total as u64;
        ls.commitment.match_index(self.local_id.as_str(), last_index);
        // Update the last log since it's on disk now.
        self.shared.set_last_log(last_index, term);
        Dispatch::Written
    }

    /// The entry by which a new leader establishes its term.
    pub fn noop_log() -> (r: LogFuture)
        ensures
            r@ == (FutureView {
                log: LogView { log_type: LogType::Noop, ..crate::log::blank_log() },
                ticket: None,
            }),
    {
        let mut log = Log::default();
        log.log_type = LogType::Noop;
        LogFuture { log, ticket: None }
    }

    /// Takes the committed entries from the front of those in flight.
    fn take_committed(ls: &mut LeaderState, commit_index: u64) -> (r: (HashMap<u64, LogFuture>, u64, usize))
        ensures
            r.2 == committed_prefix(old(ls)@.inflight, commit_index),
            r.2 <= old(ls)@.inflight.len(),
            r.0@ == by_index(old(ls).inflight@.take(r.2 as int)),
            r.2 > 0 ==> r.1 == old(ls)@.inflight[r.2 - 1].log.index,
            final(ls)@ == (LeaderView {
                inflight: old(ls)@.inflight.skip(r.2 as int),
                ..old(ls)@
            }),
    {
        broadcast use vstd::std_specs::hash::group_hash_axioms;

        let mut group: HashMap<u64, LogFuture> = HashMap::new();
        let mut last: u64 = 0;
        let mut taken: usize = 0;
        let ghost all = ls.inflight@;
        let ghost views = ls@.inflight;
        proof {
            assert(all.take(0) =~= Seq::empty());
            assert(group@ =~= by_index(all.take(0)));
            assert(all.skip(0) =~= all);
            assert(views.skip(0) =~= views);
        }
        let total: usize = ls.inflight.len();
        while ls.inflight.len() > 0
            invariant_except_break
                true,
            invariant
                taken <= all.len(),
                total == all.len(),
                all == old(ls).inflight@,
                views == future_views(all),
                views == old(ls)@.inflight,
                ls.inflight@ == all.skip(taken as int),
                ls@ == (LeaderView { inflight: views.skip(taken as int), ..old(ls)@ }),
                group@ == by_index(all.take(taken as int)),
                taken > 0 ==> last == views[taken - 1].log.index,
                committed_prefix(views, commit_index) == taken + committed_prefix(
                    views.skip(taken as int),
                    commit_index,
                ),
            ensures
                committed_prefix(views.skip(taken as int), commit_index) == 0,
            decreases ls.inflight@.len(),
        {
            assert(views.skip(taken as int)[0] == ls.inflight@[0]@);
            if ls.inflight[0].log.index > commit_index {
                break;
            }
            let future = ls.inflight.remove(0);
            last = future.log.index;
            proof {
                assert(future == all[taken as int]);
                assert(all.skip(taken as int).remove(0) =~= all.skip(taken + 1));
                assert(views.skip(taken as int).drop_first() =~= views.skip(taken + 1));
                assert(future_views(ls.inflight@) =~= views.skip(taken + 1));
                assert(all.take(taken + 1).drop_last() =~= all.take(taken as int));
            }
            let _replaced = group.insert(last, future);
            taken += 1;
        }
        (group, last, taken)
    }

    /// Processes the newly committed entries after the commit index of the
    /// followers has advanced.
    pub fn commit_advanced<L: LogStore>(&mut self, ls: &mut LeaderState, logs: &L) -> (r:
        std::result::Result<Committed, Fatal>)
        ensures
            r matches Ok(done) ==> {
                let commit = old(ls)@.commitment.commit_index;
                let n = took_commit_index(old(self)@, commit);
                let k = committed_prefix(old(ls)@.inflight, commit);
                let group = by_index(old(ls).inflight@.take(k as int));
                let last = old(ls)@.inflight[k - 1].log.index;
                let m = if k > 0 && last > n.shared.last_applied {
                    with_applied(n, last)
                } else {
                    n
                };
                &&& final(ls)@ == (LeaderView {
                    inflight: old(ls)@.inflight.skip(k as int),
                    step_down: leaves(old(self)@, old(ls)@),
                    ..old(ls)@
                })
                &&& if k > 0 {
                    applies(n, group, logs.entries(), last, done.applying) && all_known(
                        group,
                        logs.entries(),
                        n.shared.last_applied,
                        last,
                    )
                } else {
                    done.applying.batches@.len() == 0 && done.applying.answered@.len() == 0
                }
                &&& final(self)@ == if leaves(old(self)@, old(ls)@) {
                    left(m)
                } else {
                    m
                }
                &&& done.next == if !leaves(old(self)@, old(ls)@) {
                    AfterCommit::Lead
                } else if old(self)@.conf.shutdown_on_remove {
                    AfterCommit::ShutDown
                } else {
                    AfterCommit::Follow
                }
            },
            r matches Err(f) ==> ({
                let k = committed_prefix(
                    old(ls)@.inflight,
                    old(ls)@.commitment.commit_index,
                );
                &&& unread_in(*logs, f)
                &&& f matches Fatal::LogUnread(index, _)
                &&& k > 0
                &&& old(self)@.shared.last_applied < index <= old(ls)@.inflight[k - 1].log.index
            }),
    {
        let old_commit_index: u64 = self.shared.commit_index();
        let commit_index: u64 = ls.commitment.commit_index();
        self.shared.set_commit_index(commit_index);
        // New configuration has been committed, set it as the committed
        // value.
        let latest_index: u64 = self.configurations.latest_index;
        if latest_index > old_commit_index && latest_index <= commit_index {
            self.commit_latest_configuration();
            if !self.configurations.committed.has_vote(self.local_id.as_str()) {
                ls.step_down = true;
            }
        }
        // Pull all inflight logs that are committed off the queue.
        let (group, last, taken): (HashMap<u64, LogFuture>, u64, usize) = Self::take_committed(
            ls,
            commit_index,
        );
        // Process the group.
        let applying = if taken > 0 {
            match self.process_logs(logs, last, group) {
                Ok(applying) => applying,
                Err(f) => {
                    return Err(f);
                },
            }
        } else {
            Applying { batches: Vec::new(), answered: Vec::new() }
        };
        let mut next = AfterCommit::Lead;
        if ls.step_down {
            if self.conf.shutdown_on_remove {
                let _first = self.initiate_shutdown();
                next = AfterCommit::ShutDown;
            } else {
                self.set_state(RaftState::Follower);
                next = AfterCommit::Follow;
            }
        }
        Ok(Committed { applying, next })
    }
}

/// After replication was started and stopped, a leader replicates to exactly
/// the other servers of its latest configuration.
pub proof fn law_replication_covers_the_configuration(
    n: NodeView,
    repl: Seq<ReplicationView>,
    now: Instant,
    id: Seq<char>,
)
    ensures
        replicated(
            wanted_replication(
                n,
                with_servers_replicated(n, repl, n.configurations.latest, now),
            ),
            id,
        ) <==> id != n.local_id && member_of(n.configurations.latest, id),
{
    let servers = n.configurations.latest;
    let all = with_servers_replicated(n, repl, servers, now);
    lemma_wanted_covers(n, all, id);
    if id != n.local_id && member_of(servers, id) {
        let i = choose|i: int| 0 <= i < servers.len() && (#[trigger] servers[i]).id == id;
        assert(servers.take(servers.len() as int) =~= servers);
        lemma_server_replicated(n, repl, servers, now, i, servers.len() as int);
    }
}

proof fn lemma_wanted_covers(n: NodeView, all: Seq<ReplicationView>, id: Seq<char>)
    ensures
        replicated(wanted_replication(n, all), id) <==> replicated(all, id) && id != n.local_id
            && member_of(n.configurations.latest, id),
    decreases all.len(),
{
    let whole = wanted_replication(n, all);
    if all.len() > 0 {
        let front = all.drop_last();
        let rest = wanted_replication(n, front);
        lemma_wanted_covers(n, front, id);
        if replicated(whole, id) {
            let i = choose|i: int| 0 <= i < whole.len() && (#[trigger] whole[i]).peer.id == id;
            if i < rest.len() {
                assert(rest[i].peer.id == id);
                let j = choose|j: int| 0 <= j < front.len() && (#[trigger] front[j]).peer.id == id;
                assert(all[j].peer.id == id);
            } else {
                assert(all[all.len() - 1].peer.id == id);
            }
        }
        if replicated(all, id) && id != n.local_id && member_of(n.configurations.latest, id) {
            let j = choose|j: int| 0 <= j < all.len() && (#[trigger] all[j]).peer.id == id;
            if j < front.len() {
                assert(front[j].peer.id == id);
                let i = choose|i: int| 0 <= i < rest.len() && (#[trigger] rest[i]).peer.id == id;
                assert(whole[i].peer.id == id);
            } else {
                assert(whole[whole.len() - 1].peer.id == id);
            }
        }
    }
}

proof fn lemma_server_replicated(
    n: NodeView,
    repl: Seq<ReplicationView>,
    servers: Seq<ServerView>,
    now: Instant,
    i: int,
    upto: int,
)
    requires
        0 <= i < upto <= servers.len(),
        servers[i].id != n.local_id,
    ensures
        replicated(with_servers_replicated(n, repl, servers.take(upto), now), servers[i].id),
    decreases upto,
{
    let before = with_servers_replicated(n, repl, servers.take(upto - 1), now);
    let s = servers[upto - 1];
    let after = with_server_replicated(n, before, s, now);
    let id = servers[i].id;
    assert(servers.take(upto).drop_last() =~= servers.take(upto - 1));
    assert(servers.take(upto).last() == s);
    if i < upto - 1 {
        lemma_server_replicated(n, repl, servers, now, i, upto - 1);
        let k = choose|k: int| 0 <= k < before.len() && (#[trigger] before[k]).peer.id == id;
        assert(after[k].peer.id == id);
    } else if replicated(before, id) {
        let k = choose|k: int| 0 <= k < before.len() && (#[trigger] before[k]).peer.id == id;
        assert(after[k].peer.id == id);
    } else {
        assert(after[after.len() - 1].peer.id == id);
    }
}

/// A leader only appends: writing new entries leaves every entry up to the
/// end of its log as it was.
pub proof fn law_leader_only_appends(
    stored: Map<u64, LogView>,
    futures: Seq<FutureView>,
    last_index: u64,
    term: u64,
    now: Instant,
    index: u64,
)
    requires
        last_index + futures.len() <= u64::MAX,
        index <= last_index,
    ensures
        with_logs(stored, logs_of(dispatched(futures, last_index, term, now))).contains_key(index)
            == stored.contains_key(index),
        stored.contains_key(index) ==> with_logs(
            stored,
            logs_of(dispatched(futures, last_index, term, now)),
        )[index] == stored[index],
{
    let new = logs_of(dispatched(futures, last_index, term, now));
    assert forall|j: int| 0 <= j < new.len() implies (#[trigger] new[j]).index != index by {
        assert(new[j].index == last_index + 1 + j);
    }
    crate::log::law_other_indexes_keep_their_logs(stored, new, index);
}

/// The entries that a leader writes keep logs matching, where nobody else has
/// written entries of its term beyond the end of its log.
pub proof fn law_new_entries_keep_logs_matching(
    stored: Map<u64, LogView>,
    other: Map<u64, LogView>,
    futures: Seq<FutureView>,
    last_index: u64,
    term: u64,
    now: Instant,
)
    requires
        last_index + futures.len() <= u64::MAX,
        without_holes(stored, last_index),
        logs_match(stored, other),
        forall|i: u64| #[trigger]
            other.contains_key(i) && i > last_index ==> other[i].term != term,
    ensures
        logs_match(with_logs(stored, logs_of(dispatched(futures, last_index, term, now))), other),
{
    let new = logs_of(dispatched(futures, last_index, term, now));
    let after = with_logs(stored, new);
    assert forall|j: int| 0 <= j < new.len() implies (#[trigger] new[j]).index == last_index + 1 + j
        && new[j].term == term by {}
    lemma_with_logs_run(stored, new);
    assert forall|i: u64, j: u64|
        #![trigger after[i], other[j]]
        j <= i && after.contains_key(i) && other.contains_key(i) && after[i].term == other[i].term
            && after.contains_key(j) && other.contains_key(j) implies same_entry(
        after[j],
        other[j],
    ) by {
        if i > last_index {
            assert(!stored.contains_key(i));
            let x = choose|x: int| 0 <= x < new.len() && (#[trigger] new[x]).index == i;
            assert(after[new[x].index] == new[x]);
        } else {
            assert(after[i] == stored[i]);
            assert(after[j] == stored[j]);
            assert(stored.contains_key(i) && stored.contains_key(j));
            assert(stored[i].term == other[i].term);
        }
    }
}

/// Noting down removed peers touches the observations only.
pub proof fn lemma_observing_removals_keeps_the_rest(n: NodeView, peers: Seq<ReplicationView>)
    ensures
        observed_removed(n, peers) == (NodeView {
            observed: observed_removed(n, peers).observed,
            ..n
        }),
    decreases peers.len(),
{
    if peers.len() > 0 {
        lemma_observing_removals_keeps_the_rest(n, peers.drop_last());
    }
}

/// Noting down new peers touches the observations only.
pub proof fn lemma_observing_keeps_the_rest(n: NodeView, peers: Seq<ServerView>)
    ensures
        observed_added(n, peers) == (NodeView {
            observed: observed_added(n, peers).observed,
            ..n
        }),
    decreases peers.len(),
{
    if peers.len() > 0 {
        lemma_observing_keeps_the_rest(n, peers.drop_last());
    }
}

proof fn lemma_replicating_ignores_observations(
    n: NodeView,
    m: NodeView,
    repl: Seq<ReplicationView>,
    s: ServerView,
    now: Instant,
)
    requires
        m == (NodeView { observed: m.observed, ..n }),
    ensures
        with_server_replicated(m, repl, s, now) == with_server_replicated(n, repl, s, now),
{
}

proof fn lemma_wanted_stays_distinct(n: NodeView, repl: Seq<ReplicationView>)
    requires
        distinct_peers(repl),
    ensures
        distinct_peers(wanted_replication(n, repl)),
        forall|i: int|
            0 <= i < wanted_replication(n, repl).len() ==> still_wanted(
                n,
                #[trigger] wanted_replication(n, repl)[i],
            ) && exists|j: int|
                0 <= j < repl.len() && wanted_replication(n, repl)[i] == #[trigger] repl[j],
    decreases repl.len(),
{
    if repl.len() > 0 {
        let front = repl.drop_last();
        let rest = wanted_replication(n, front);
        let whole = wanted_replication(n, repl);
        assert forall|i: int, j: int| 0 <= i < j < front.len() implies (
        #[trigger] front[i]).peer.id != (#[trigger] front[j]).peer.id by {
            assert(repl[i].peer.id != repl[j].peer.id);
        }
        lemma_wanted_stays_distinct(n, front);
        assert forall|i: int| 0 <= i < whole.len() implies still_wanted(
            n,
            #[trigger] whole[i],
        ) && exists|j: int| 0 <= j < repl.len() && whole[i] == #[trigger] repl[j] by {
            if i < rest.len() {
                assert(whole[i] == rest[i]);
                let j = choose|j: int| 0 <= j < front.len() && rest[i] == #[trigger] front[j];
                assert(whole[i] == repl[j]);
            } else {
                assert(whole[i] == repl[repl.len() - 1]);
            }
        }
        assert forall|i: int, j: int| 0 <= i < j < whole.len() implies (
        #[trigger] whole[i]).peer.id != (#[trigger] whole[j]).peer.id by {
            assert(whole[i] == rest[i]);
            if j < rest.len() {
                assert(whole[j] == rest[j]);
            } else {
                let k = choose|k: int| 0 <= k < front.len() && rest[i] == #[trigger] front[k];
                assert(repl[k].peer.id != repl[repl.len() - 1].peer.id);
            }
        }
    }
}

} // verus!
