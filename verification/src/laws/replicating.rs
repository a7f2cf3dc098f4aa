//! To whom a leader replicates, from where on, at which pace, and what its
//! verifications come to.

use crate::commitment::Commitment;
use crate::configuration::{member_of, ServerView};
use crate::election::server_views;
use crate::error::RaftError;
use crate::leader::{
    law_replication_covers_the_configuration, newly_replicated, observed_added, observed_removed,
    peers_of, replicated, unwanted_replication, wanted_replication, with_server_replicated,
    with_servers_replicated, LeaderState, PendingVerify, ReplicationChanges,
};
use crate::leadership::{without_ticket, VerifyAnswer};
use crate::log::{log_views, Log, LogStore};
use crate::observer::ObservationView;
use crate::raft::{NodeView, RaftCore};
use crate::replication::{
    heartbeat_retry_wait, other_tickets, pipeline_next, snapshot_to_ship, FollowerReplication,
    HeartbeatLoop, ReplicateStep, ReplicationLoop, ReplicationMode, ReplicationView, Wakeup,
};
use crate::snapshot::SnapshotMeta;
use crate::time::{Duration, Instant};
use crate::transport::{AppendEntriesRequest, InstallSnapshotRequest, RPCCommand};
use vstd::prelude::*;

verus! {

/// A follower that is replicated to after servers were added was so before,
/// and is where it was, or begins at the end of the log.
proof fn lemma_followers_stay_where_they_are(
    n: NodeView,
    repl: Seq<ReplicationView>,
    servers: Seq<ServerView>,
    now: Instant,
    i: int,
)
    requires
        0 <= i < with_servers_replicated(n, repl, servers, now).len(),
    ensures
        ({
            let r = with_servers_replicated(n, repl, servers, now)[i];
            ||| exists|j: int|
                0 <= j < repl.len() && (#[trigger] repl[j]).peer.id == r.peer.id
                    && repl[j].next_index == r.next_index && repl[j].last_contact
                    == r.last_contact && repl[j].failures == r.failures && repl[j].notify
                    == r.notify && repl[j].current_term == r.current_term
            ||| r.next_index == (n.shared.spec_last_index() + 1) as u64 && r.last_contact == now
                && r.failures == 0 && r.notify.len() == 0 && r.current_term
                == n.shared.current_term
        }),
    decreases servers.len(),
{
    let all = with_servers_replicated(n, repl, servers, now);
    if servers.len() == 0 {
        assert(repl[i].peer.id == all[i].peer.id);
    } else {
        let front = with_servers_replicated(n, repl, servers.drop_last(), now);
        if i < front.len() {
            lemma_followers_stay_where_they_are(n, repl, servers.drop_last(), now, i);
            assert(all[i].peer.id == front[i].peer.id);
            assert(all[i].next_index == front[i].next_index);
        }
    }
}

proof fn lemma_wanted_are_of_all(n: NodeView, repl: Seq<ReplicationView>, i: int)
    requires
        0 <= i < wanted_replication(n, repl).len(),
    ensures
        exists|j: int|
            0 <= j < repl.len() && #[trigger] repl[j] == wanted_replication(n, repl)[i],
    decreases repl.len(),
{
    if repl.len() > 0 {
        let front = wanted_replication(n, repl.drop_last());
        if i < front.len() {
            lemma_wanted_are_of_all(n, repl.drop_last(), i);
            let j = choose|j: int|
                0 <= j < repl.drop_last().len() && #[trigger] repl.drop_last()[j] == front[i];
            assert(repl[j] == wanted_replication(n, repl)[i]);
        } else {
            assert(repl[repl.len() - 1] == wanted_replication(n, repl)[i]);
        }
    }
}

/// A leader replicates to every other server of its membership, and to nobody
/// else. One that it replicated to before is left where it was; a new one is
/// sent what comes after the end of the log first.
pub proof fn law_all_others_are_replicated_to(
    core: &mut RaftCore,
    ls: &mut LeaderState,
    now: Instant,
    r: ReplicationChanges,
    id: Seq<char>,
    i: int,
)
    requires
        call_ensures(RaftCore::start_stop_replication, (core, ls, now), r),
        old(core)@.shared.last_log.0 < u64::MAX,
        old(core)@.shared.last_snapshot.0 < u64::MAX,
    ensures
        (exists|k: int|
            0 <= k < final(ls)@.repl.len() && (#[trigger] final(ls)@.repl[k]).peer.id == id) <==> id
            != old(core)@.local_id && exists|p: int|
            0 <= p < old(core)@.configurations.latest.len()
                && (#[trigger] old(core)@.configurations.latest[p]).id == id,
        0 <= i < final(ls)@.repl.len() ==> {
            let f = final(ls)@.repl[i];
            ||| exists|j: int|
                0 <= j < old(ls)@.repl.len() && (#[trigger] old(ls)@.repl[j]).peer.id == f.peer.id
                    && old(ls)@.repl[j].next_index == f.next_index
                    && old(ls)@.repl[j].last_contact == f.last_contact
            ||| f.next_index > old(core)@.shared.last_log.0
                && f.next_index > old(core)@.shared.last_snapshot.0
                && (f.next_index == old(core)@.shared.last_log.0 + 1
                || f.next_index == old(core)@.shared.last_snapshot.0 + 1) && f.last_contact == now
        },
        final(ls)@.inflight == old(ls)@.inflight,
        final(ls)@.commitment == old(ls)@.commitment,
{
    let n = old(core)@;
    let servers = n.configurations.latest;
    let repl = old(ls)@.repl;
    let all = with_servers_replicated(n, repl, servers, now);
    law_replication_covers_the_configuration(n, repl, now, id);
    assert(member_of(servers, id) <==> exists|p: int|
        0 <= p < servers.len() && (#[trigger] servers[p]).id == id);
    if 0 <= i < final(ls)@.repl.len() {
        lemma_wanted_are_of_all(n, all, i);
        let j = choose|j: int|
            0 <= j < all.len() && #[trigger] all[j] == wanted_replication(n, all)[i];
        lemma_followers_stay_where_they_are(n, repl, servers, now, j);
    }
}

/// A follower is asked by pipeline only after it took a request in standard
/// mode, and no longer than that goes well; a newer term ends the replication.
pub proof fn law_pipeline_follows_success(l: &mut ReplicationLoop, should_stop: bool)
    requires
        call_ensures(ReplicationLoop::round_done, (l, should_stop), ()),
    ensures
        final(l).mode == ReplicationMode::Ended <==> should_stop || (old(l).mode
            == ReplicationMode::Ended && !old(l).allow_pipeline),
        !should_stop && old(l).allow_pipeline ==> final(l).mode == ReplicationMode::Pipeline
            && !final(l).allow_pipeline,
        !should_stop && !old(l).allow_pipeline ==> *final(l) == *old(l),
{
}

/// A failed send on the pipeline falls back to standard mode.
pub proof fn law_failed_pipeline_falls_back(l: &mut ReplicationLoop, failed: bool)
    requires
        call_ensures(ReplicationLoop::pipeline_sent, (l, failed), ()),
    ensures
        failed ==> final(l).mode == ReplicationMode::Standard,
        !failed ==> *final(l) == *old(l),
        final(l).allow_pipeline == old(l).allow_pipeline,
{
}

/// A wakeup sends up to the index that it names, and a stop sends what it asks
/// for and ends standard mode.
pub proof fn law_wakeups_send_what_they_name(
    l: &mut ReplicationLoop,
    event: Wakeup,
    send_up_to: Option<u64>,
)
    requires
        call_ensures(ReplicationLoop::wake, (l, event), send_up_to),
    ensures
        event matches Wakeup::Replicate(last) ==> send_up_to == Some(last) && *final(l) == *old(l),
        event matches Wakeup::Stop(Some(max)) ==> (max > 0 ==> send_up_to == Some(max)),
        event is Stop && old(l).mode == ReplicationMode::Standard ==> final(l).mode
            == ReplicationMode::Ended,
        event is PipelineEnded ==> final(l).mode == ReplicationMode::Standard && send_up_to
            is None,
{
}

/// The heartbeat of a leader is taken for one, is of the leader's term, and
/// asks for nothing to be stored or committed.
pub proof fn law_heartbeats_are_taken_for_such(
    repl: &FollowerReplication,
    core: &RaftCore,
    req: AppendEntriesRequest,
    r: bool,
)
    requires
        call_ensures(FollowerReplication::heartbeat_request, (repl, core), req),
        call_ensures(RPCCommand::is_heartbeat, (&RPCCommand::AppendEntries(req),), r),
    ensures
        r,
        req.term == repl@.current_term,
        req.entries@.len() == 0,
        req.prev_log_entry == 0,
        req.leader_commit_index == 0,
        req.header.id@ == core@.local_id,
        req.header.addr@ == core@.local_addr,
{
}

/// A request is taken for a heartbeat where it appends nothing, names nothing
/// before it and commits nothing, and only there.
pub proof fn law_only_empty_appends_are_heartbeats(command: RPCCommand, r: bool)
    requires
        call_ensures(RPCCommand::is_heartbeat, (&command,), r),
    ensures
        !(command is AppendEntries) ==> !r,
        command matches RPCCommand::AppendEntries(req) ==> (r <==> req.entries@.len() == 0
            && req.prev_log_entry == 0 && req.prev_log_term == 0 && req.leader_commit_index == 0),
{
}

/// The newest snapshot is shipped, where there is one.
pub proof fn law_newest_snapshot_is_shipped(
    snapshots: &Vec<SnapshotMeta>,
    r: crate::error::Result<String>,
)
    requires
        call_ensures(snapshot_to_ship, (snapshots,), r),
    ensures
        r is Ok <==> snapshots@.len() > 0,
        r is Ok ==> r->Ok_0@ == snapshots@[0].id@,
{
}

/// The pipeline goes on behind what was sent.
pub proof fn law_pipeline_goes_on_behind_what_was_sent(
    next: u64,
    entries: &Vec<crate::log::Log>,
    r: u64,
)
    requires
        call_ensures(pipeline_next, (next, entries), r),
        entries@.len() > 0 ==> entries@.last().index < u64::MAX,
    ensures
        entries@.len() == 0 ==> r == next,
        entries@.len() > 0 ==> r == entries@.last().index + 1,
{
}

/// A follower that has not failed is not waited for; the wait after failures
/// begins with ten milliseconds and doubles with each from the third to the
/// twelfth, and no further.
pub proof fn law_failure_wait_doubles(
    a: &FollowerReplication,
    b: &FollowerReplication,
    first: Option<Duration>,
    second: Option<Duration>,
)
    requires
        call_ensures(FollowerReplication::retry_wait, (a,), first),
        call_ensures(FollowerReplication::retry_wait, (b,), second),
        b@.failures == a@.failures + 1,
    ensures
        first is None <==> a@.failures == 0,
        second is Some,
        b@.failures <= 2 ==> second->Some_0@ == 10_000_000,
        2 <= a@.failures < 12 ==> second->Some_0@ == 2 * first->Some_0@,
        a@.failures >= 12 ==> second->Some_0@ == first->Some_0@,
{
}

/// A failed heartbeat is repeated within half the heartbeat timeout.
pub proof fn law_failed_heartbeats_are_repeated_in_time(
    failures: u64,
    heartbeat_timeout: Duration,
    r: Duration,
)
    requires
        call_ensures(heartbeat_retry_wait, (failures, heartbeat_timeout), r),
    ensures
        r@ <= heartbeat_timeout@ / 2,
        failures <= 2 && heartbeat_timeout@ >= 20_000_000 ==> r@ == 10_000_000,
{
}

proof fn lemma_other_pending(notify: Seq<PendingVerify>, ticket: u64)
    ensures
        forall|i: int|
            0 <= i < without_ticket(notify, ticket).len() ==> (#[trigger] without_ticket(
                notify,
                ticket,
            )[i]).ticket != ticket,
        forall|i: int|
            0 <= i < notify.len() && (#[trigger] notify[i]).ticket != ticket ==> without_ticket(
                notify,
                ticket,
            ).contains(notify[i]),
    decreases notify.len(),
{
    if notify.len() > 0 {
        let front = notify.drop_last();
        let rest = without_ticket(front, ticket);
        let all = without_ticket(notify, ticket);
        lemma_other_pending(front, ticket);
        assert forall|i: int| 0 <= i < all.len() implies (#[trigger] all[i]).ticket != ticket by {
            if i < rest.len() {
                assert(all[i] == rest[i]);
            }
        }
        assert forall|i: int| 0 <= i < notify.len() && (#[trigger] notify[i]).ticket
            != ticket implies all.contains(notify[i]) by {
            if i < front.len() {
                assert(front[i] == notify[i]);
                let j = choose|j: int| 0 <= j < rest.len() && rest[j] == front[i];
                assert(all[j] == notify[i]);
            } else {
                assert(all[rest.len() as int] == notify[i]);
            }
        }
    }
}

/// A verification that was answered is pending no more; every other one is.
pub proof fn law_answered_verifications_are_done_with(
    core: &mut RaftCore,
    ls: &mut LeaderState,
    ticket: u64,
    r: VerifyAnswer,
    i: int,
)
    requires
        call_ensures(RaftCore::verify_decided, (core, ls, ticket), r),
    ensures
        0 <= i < final(ls)@.notify.len() ==> final(ls)@.notify[i].ticket != ticket,
        0 <= i < old(ls)@.notify.len() && old(ls)@.notify[i].ticket != ticket
            ==> final(ls)@.notify.contains(old(ls)@.notify[i]),
        final(ls)@.inflight == old(ls)@.inflight,
        final(ls)@.commitment == old(ls)@.commitment,
{
    lemma_other_pending(old(ls)@.notify, ticket);
    if r == VerifyAnswer::Unknown && 0 <= i < old(ls)@.notify.len() {
        assert(final(ls)@.notify[i] == old(ls)@.notify[i]);
    }
}

/// A vote counts for the verification that it is cast on, and for no other; it
/// is reported as decided where it is negative or makes up the quorum.
pub proof fn law_votes_count_for_their_verification(
    ls: &mut LeaderState,
    tickets: &Vec<u64>,
    leader: bool,
    decided: Vec<u64>,
    i: int,
)
    requires
        call_ensures(LeaderState::vote_verifications, (ls, tickets, leader), decided),
        tickets@.len() == 1,
        0 <= i < old(ls)@.notify.len(),
        old(ls)@.notify[i].state.votes < usize::MAX,
    ensures
        ({
            let before = old(ls)@.notify[i];
            let after = final(ls)@.notify[i];
            &&& after.ticket == before.ticket
            &&& before.ticket != tickets@[0] || !before.state.armed ==> after == before
            &&& before.ticket == tickets@[0] && before.state.armed ==> {
                let settles = !leader || before.state.votes + 1 >= before.state.quorum_size;
                &&& after.state.votes == before.state.votes + if leader {
                    1int
                } else {
                    0int
                }
                &&& after.state.armed == !settles
                &&& settles ==> decided@ == seq![tickets@[0]]
            }
        }),
        decided@.len() <= 1,
{
    reveal_with_fuel(crate::leadership::after_votes, 2);
    reveal_with_fuel(crate::leadership::decided_tickets, 2);
    assert(tickets@.drop_last() =~= Seq::empty());
    let before = old(ls)@.notify[i];
    if before.ticket == tickets@[0] && before.state.armed {
        if !leader || before.state.votes + 1 >= before.state.quorum_size {
            assert(crate::leadership::vote_decides(old(ls)@.notify, tickets@[0], leader));
            assert(decided@ =~= seq![tickets@[0]]);
        }
    }
}

/// The request that ships a snapshot describes it as it is.
pub proof fn law_shipped_request_describes_the_snapshot(
    repl: &FollowerReplication,
    core: &RaftCore,
    meta: &SnapshotMeta,
    configuration: Vec<u8>,
    r: InstallSnapshotRequest,
)
    requires
        call_ensures(
            FollowerReplication::snapshot_request,
            (repl, core, meta, configuration),
            r,
        ),
    ensures
        r.term == repl@.current_term,
        r.last_log_index == meta.index,
        r.last_log_term == meta.term,
        r.configuration@ == configuration@,
        r.configuration_index == meta.configuration_index,
        r.size == meta.size,
        r.header.id@ == core@.local_id,
        r.header.addr@ == core@.local_addr,
{
}

/// A follower gets a snapshot only where an entry that it lacks is not found
/// in the log, and a request otherwise, unless the log cannot be read.
pub proof fn law_snapshots_replace_what_is_compacted<L: LogStore>(
    repl: &FollowerReplication,
    core: &RaftCore,
    logs: &L,
    last_index: u64,
    r: ReplicateStep,
)
    requires
        call_ensures(FollowerReplication::next_step::<L>, (repl, core, logs, last_index), r),
        repl@.next_index >= 1,
        repl@.next_index + core@.conf.max_append_entries <= u64::MAX,
    ensures
        r is SendSnapshot ==> exists|i: u64, e: RaftError| #[trigger]
            call_ensures(L::get_log, (logs, i), Err::<Log, RaftError>(e)) && e is LogNotFound
                && repl@.next_index - 1 <= i,
        r is GiveUp ==> exists|i: u64, e: RaftError| #[trigger]
            call_ensures(L::get_log, (logs, i), Err::<Log, RaftError>(e)) && !(e is LogNotFound)
                && repl@.next_index - 1 <= i,
        r matches ReplicateStep::Send(req) ==> req.term == repl@.current_term
            && req.leader_commit_index == core@.shared.commit_index,
{
}

/// An answered heartbeat counts as contact, and as a vote for whoever waits for
/// one; it moves no index.
pub proof fn law_answered_heartbeats_are_contact(
    repl: &mut FollowerReplication,
    now: Instant,
    voted: Vec<u64>,
)
    requires
        call_ensures(FollowerReplication::heartbeat_replied, (repl, now), voted),
    ensures
        final(repl)@.last_contact == now,
        voted@ == old(repl)@.notify,
        final(repl)@.notify.len() == 0,
        final(repl)@.next_index == old(repl)@.next_index,
        final(repl)@.failures == old(repl)@.failures,
        final(repl)@.peer == old(repl)@.peer,
{
}

/// A heartbeat that failed is counted and told; the next that is answered ends
/// the count.
pub proof fn law_failed_heartbeats_are_counted(
    h: &mut HeartbeatLoop,
    core: &mut RaftCore,
    repl: &FollowerReplication,
    wait: Duration,
)
    requires
        call_ensures(HeartbeatLoop::failed, (h, core, repl), wait),
        old(h).failures < u64::MAX,
    ensures
        final(h).failures == old(h).failures + 1,
        wait@ <= old(core)@.conf.heartbeat_timeout / 2,
        final(core)@.shared == old(core)@.shared,
        final(core)@.observed == old(core)@.observed.push(
            ObservationView::FailedHeartbeat {
                peer_id: repl@.peer.id,
                last_contact: Some(repl@.last_contact),
            },
        ),
{
}

/// An answered heartbeat ends the count of failures and counts as contact.
pub proof fn law_answers_end_the_count(
    h: &mut HeartbeatLoop,
    core: &mut RaftCore,
    repl: &mut FollowerReplication,
    now: Instant,
    voted: Vec<u64>,
)
    requires
        call_ensures(HeartbeatLoop::replied, (h, core, repl, now), voted),
    ensures
        final(h).failures == 0,
        old(h).failures == 0 ==> final(core)@.observed == old(core)@.observed,
        old(h).failures > 0 ==> final(core)@.observed == old(core)@.observed.push(
            ObservationView::ResumedHeartbeat { peer_id: old(repl)@.peer.id },
        ),
        final(repl)@.last_contact == now,
        voted@ == old(repl)@.notify,
        final(core)@.shared == old(core)@.shared,
{
}

/// A failed request is counted, and changes nothing else.
pub proof fn law_failed_requests_are_counted(repl: &mut FollowerReplication)
    requires
        call_ensures(FollowerReplication::request_failed, (repl,), ()),
        old(repl)@.failures < u64::MAX,
    ensures
        final(repl)@.failures == old(repl)@.failures + 1,
        final(repl)@.next_index == old(repl)@.next_index,
        final(repl)@.last_contact == old(repl)@.last_contact,
{
}

proof fn lemma_other_tickets_stay(tickets: Seq<u64>, ticket: u64, other: u64)
    ensures
        other_tickets(tickets, ticket).contains(other) <==> tickets.contains(other) && other
            != ticket,
    decreases tickets.len(),
{
    if tickets.len() > 0 {
        let front = tickets.drop_last();
        let kept = other_tickets(front, ticket);
        lemma_other_tickets_stay(front, ticket, other);
        assert(tickets =~= front.push(tickets.last()));
        if front.contains(other) {
            let p = choose|p: int| 0 <= p < front.len() && front[p] == other;
            assert(tickets[p] == other);
        }
        if tickets.contains(other) && tickets.last() != other {
            let p = choose|p: int| 0 <= p < tickets.len() && tickets[p] == other;
            assert(front[p] == other);
        }
        if tickets.last() == other {
            assert(tickets[tickets.len() - 1] == other);
        }
        if tickets.last() != ticket {
            if kept.contains(other) {
                let p = choose|p: int| 0 <= p < kept.len() && kept[p] == other;
                assert(kept.push(tickets.last())[p] == other);
            }
            if tickets.last() == other {
                assert(kept.push(tickets.last())[kept.len() as int] == other);
            }
            if kept.push(tickets.last()).contains(other) && tickets.last() != other {
                let p = choose|p: int|
                    0 <= p <= kept.len() && kept.push(tickets.last())[p] == other;
                assert(kept[p] == other);
            }
        }
    }
}

/// A verification that is taken back is waited for no more; all others are.
pub proof fn law_other_verifications_are_waited_for(
    repl: &mut FollowerReplication,
    ticket: u64,
    other: u64,
)
    requires
        call_ensures(FollowerReplication::clean_notify, (repl, ticket), ()),
    ensures
        final(repl)@.notify.contains(other) <==> old(repl)@.notify.contains(other) && other
            != ticket,
        final(repl)@.next_index == old(repl)@.next_index,
        final(repl)@.last_contact == old(repl)@.last_contact,
{
    lemma_other_tickets_stay(old(repl)@.notify, ticket, other);
}

/// Entries that a follower took move it behind the last of them, and count as
/// stored by it up to there.
pub proof fn law_taken_entries_count(
    repl: &mut FollowerReplication,
    commitment: &mut Commitment,
    entries: &Vec<Log>,
    now: Instant,
    voted: Vec<u64>,
)
    requires
        call_ensures(
            FollowerReplication::update_last_appended,
            (repl, commitment, entries, now),
            voted,
        ),
        entries@.len() > 0 ==> entries@.last().index < u64::MAX,
    ensures
        final(repl)@.last_contact == now,
        entries@.len() > 0 ==> final(repl)@.next_index == entries@.last().index + 1,
        entries@.len() == 0 ==> final(repl)@.next_index == old(repl)@.next_index,
        entries@.len() > 0 && old(commitment)@.matched.contains_key(old(repl)@.peer.id)
            ==> final(commitment)@.matched[old(repl)@.peer.id] >= entries@.last().index,
        entries@.len() == 0 ==> final(commitment)@ == old(commitment)@,
        voted@ == old(repl)@.notify,
        final(repl)@.notify.len() == 0,
{
    if entries@.len() > 0 {
        assert(log_views(entries@).last() == entries@.last()@);
    }
}

proof fn lemma_additions_are_told(n: NodeView, peers: Seq<ServerView>, i: int)
    ensures
        observed_added(n, peers).observed.len() == n.observed.len() + peers.len(),
        0 <= i < peers.len() ==> observed_added(n, peers).observed[n.observed.len() + i] == (
        ObservationView::Peer { peer: peers[i], removed: false }),
    decreases peers.len(),
{
    if peers.len() > 0 {
        lemma_additions_are_told(n, peers.drop_last(), i);
    }
}

proof fn lemma_removals_are_told(n: NodeView, peers: Seq<ReplicationView>, i: int)
    ensures
        observed_removed(n, peers).observed.len() == n.observed.len() + peers.len(),
        0 <= i < n.observed.len() ==> observed_removed(n, peers).observed[i] == n.observed[i],
        n.observed.len() <= i < n.observed.len() + peers.len() ==> observed_removed(
            n,
            peers,
        ).observed[i] == (ObservationView::Peer {
            peer: peers[i - n.observed.len()].peer,
            removed: true,
        }),
    decreases peers.len(),
{
    if peers.len() > 0 {
        lemma_removals_are_told(n, peers.drop_last(), i);
    }
}

/// Each server that replication starts or stops for is told of as added or
/// removed, in order; what stops is sent the log to its end first.
pub proof fn law_changes_of_peers_are_told(
    core: &mut RaftCore,
    ls: &mut LeaderState,
    now: Instant,
    r: ReplicationChanges,
    i: int,
)
    requires
        call_ensures(RaftCore::start_stop_replication, (core, ls, now), r),
    ensures
        ({
            let before = old(core)@.observed;
            let after = final(core)@.observed;
            let told = before.len() + r.started@.len();
            &&& r.last_index == old(core)@.shared.last_log.0 || r.last_index
                == old(core)@.shared.last_snapshot.0
            &&& r.last_index >= old(core)@.shared.last_log.0
            &&& r.last_index >= old(core)@.shared.last_snapshot.0
            &&& after.len() == told + r.stopped@.len()
            &&& 0 <= i < r.started@.len() ==> after[before.len() + i] == (ObservationView::Peer {
                peer: r.started@[i]@,
                removed: false,
            })
            &&& 0 <= i < r.stopped@.len() ==> after[told + i] == (ObservationView::Peer {
                peer: r.stopped@[i]@,
                removed: true,
            })
        }),
{
    let n = old(core)@;
    let servers = n.configurations.latest;
    let all = with_servers_replicated(n, old(ls)@.repl, servers, now);
    let added = newly_replicated(n, old(ls)@.repl, servers, now);
    let gone = unwanted_replication(n, all);
    let m = observed_added(n, added);
    assert(server_views(r.started@).len() == r.started@.len());
    assert(server_views(r.stopped@).len() == r.stopped@.len());
    assert(peers_of(gone).len() == gone.len());
    lemma_additions_are_told(n, added, i);
    lemma_removals_are_told(m, gone, n.observed.len() + i);
    lemma_removals_are_told(m, gone, m.observed.len() + i);
    if 0 <= i < r.started@.len() {
        assert(server_views(r.started@)[i] == r.started@[i]@);
    }
    if 0 <= i < r.stopped@.len() {
        assert(server_views(r.stopped@)[i] == r.stopped@[i]@);
        assert(peers_of(gone)[i] == gone[i].peer);
    }
}

proof fn lemma_new_servers(
    n: NodeView,
    repl: Seq<ReplicationView>,
    servers: Seq<ServerView>,
    now: Instant,
    id: Seq<char>,
)
    ensures
        ({
            let new = newly_replicated(n, repl, servers, now);
            let all = with_servers_replicated(n, repl, servers, now);
            &&& replicated(all, id) <==> replicated(repl, id) || (exists|i: int|
                0 <= i < new.len() && (#[trigger] new[i]).id == id)
            &&& (exists|i: int| 0 <= i < new.len() && (#[trigger] new[i]).id == id) <==> id
                != n.local_id && !replicated(repl, id) && exists|p: int|
                0 <= p < servers.len() && (#[trigger] servers[p]).id == id
        }),
    decreases servers.len(),
{
    if servers.len() > 0 {
        let front = servers.drop_last();
        let s = servers.last();
        let before = newly_replicated(n, repl, front, now);
        let known = with_servers_replicated(n, repl, front, now);
        let new = newly_replicated(n, repl, servers, now);
        let all = with_servers_replicated(n, repl, servers, now);
        lemma_new_servers(n, repl, front, now, id);
        assert(all == with_server_replicated(n, known, s, now));
        assert(forall|p: int| 0 <= p < front.len() ==> #[trigger] servers[p] == front[p]);
        assert(servers[servers.len() - 1] == s);
        assert(forall|i: int| 0 <= i < before.len() ==> #[trigger] new[i] == before[i]);
        if s.id == n.local_id {
            assert(all == known);
            assert(new == before);
        } else if replicated(known, s.id) {
            assert(new == before);
            assert(all.len() == known.len());
            assert(forall|j: int|
                0 <= j < known.len() ==> (#[trigger] all[j]).peer.id == known[j].peer.id);
            assert(forall|j: int|
                0 <= j < known.len() ==> (#[trigger] known[j]).peer.id == all[j].peer.id);
        } else {
            assert(new == before.push(s));
            assert(new[before.len() as int] == s);
            assert(all[known.len() as int].peer == s);
            assert(forall|j: int| 0 <= j < known.len() ==> #[trigger] all[j] == known[j]);
            assert(forall|j: int| 0 <= j < known.len() ==> all[j] == #[trigger] known[j]);
        }
        lemma_found_in_front(before, new, id);
        lemma_found_in_front(front, servers, id);
    }
}

proof fn lemma_found_in_front(front: Seq<ServerView>, all: Seq<ServerView>, id: Seq<char>)
    requires
        front.len() <= all.len(),
        forall|i: int| 0 <= i < front.len() ==> #[trigger] all[i] == front[i],
    ensures
        (exists|i: int| 0 <= i < front.len() && (#[trigger] front[i]).id == id) ==> exists|i: int|
            0 <= i < all.len() && (#[trigger] all[i]).id == id,
        all.len() == front.len() + 1 ==> ((exists|i: int|
            0 <= i < all.len() && (#[trigger] all[i]).id == id) <==> all.last().id == id
                || (exists|i: int|
            0 <= i < front.len() && (#[trigger] front[i]).id == id)),
        all.len() == front.len() ==> ((exists|i: int|
            0 <= i < all.len() && (#[trigger] all[i]).id == id) <==> (exists|i: int|
            0 <= i < front.len() && (#[trigger] front[i]).id == id)),
{
    if exists|i: int| 0 <= i < front.len() && (#[trigger] front[i]).id == id {
        let i = choose|i: int| 0 <= i < front.len() && (#[trigger] front[i]).id == id;
        assert(all[i].id == id);
    }
    if exists|i: int| 0 <= i < all.len() && (#[trigger] all[i]).id == id {
        let i = choose|i: int| 0 <= i < all.len() && (#[trigger] all[i]).id == id;
        if i < front.len() {
            assert(front[i].id == id);
        }
    }
    if all.len() > 0 && all.last().id == id {
        assert(all[all.len() - 1].id == id);
    }
}

/// Replication starts for the servers of the membership, other than the leader,
/// that were not replicated to, and for no other.
pub proof fn law_replication_starts_for_new_servers(
    core: &mut RaftCore,
    ls: &mut LeaderState,
    now: Instant,
    r: ReplicationChanges,
    id: Seq<char>,
)
    requires
        call_ensures(RaftCore::start_stop_replication, (core, ls, now), r),
    ensures
        (exists|i: int| 0 <= i < r.started@.len() && (#[trigger] r.started@[i])@.id == id) <==> {
            &&& id != old(core)@.local_id
            &&& forall|j: int|
                0 <= j < old(ls)@.repl.len() ==> (#[trigger] old(ls)@.repl[j]).peer.id != id
            &&& exists|p: int|
                0 <= p < old(core)@.configurations.latest.len()
                    && (#[trigger] old(core)@.configurations.latest[p]).id == id
        },
{
    let n = old(core)@;
    let servers = n.configurations.latest;
    let started = server_views(r.started@);
    lemma_new_servers(n, old(ls)@.repl, servers, now, id);
    if exists|i: int| 0 <= i < r.started@.len() && (#[trigger] r.started@[i])@.id == id {
        let i = choose|i: int| 0 <= i < r.started@.len() && (#[trigger] r.started@[i])@.id == id;
        assert(started[i].id == id);
    }
    if exists|i: int| 0 <= i < started.len() && (#[trigger] started[i]).id == id {
        let i = choose|i: int| 0 <= i < started.len() && (#[trigger] started[i]).id == id;
        assert(r.started@[i]@.id == id);
    }
}

proof fn lemma_unwanted_are_those(n: NodeView, repl: Seq<ReplicationView>, id: Seq<char>)
    ensures
        replicated(unwanted_replication(n, repl), id) <==> replicated(repl, id) && !(id
            != n.local_id && member_of(n.configurations.latest, id)),
    decreases repl.len(),
{
    if repl.len() > 0 {
        let front = repl.drop_last();
        let gone = unwanted_replication(n, front);
        let last = repl.last();
        lemma_unwanted_are_those(n, front, id);
        assert(repl =~= front.push(last));
        lemma_replicated_behind(front, last, id);
        lemma_replicated_behind(gone, last, id);
    }
}

proof fn lemma_replicated_behind(repl: Seq<ReplicationView>, last: ReplicationView, id: Seq<char>)
    ensures
        replicated(repl.push(last), id) <==> replicated(repl, id) || last.peer.id == id,
{
    let all = repl.push(last);
    if replicated(repl, id) {
        let i = choose|i: int| 0 <= i < repl.len() && (#[trigger] repl[i]).peer.id == id;
        assert(all[i].peer.id == id);
    }
    if last.peer.id == id {
        assert(all[repl.len() as int].peer.id == id);
    }
    if replicated(all, id) {
        let i = choose|i: int| 0 <= i < all.len() && (#[trigger] all[i]).peer.id == id;
        if i < repl.len() {
            assert(repl[i].peer.id == id);
        }
    }
}

/// Replication stops for the servers that were replicated to and are no longer
/// in the membership, and for no other.
pub proof fn law_replication_stops_for_removed_servers(
    core: &mut RaftCore,
    ls: &mut LeaderState,
    now: Instant,
    r: ReplicationChanges,
    id: Seq<char>,
)
    requires
        call_ensures(RaftCore::start_stop_replication, (core, ls, now), r),
        id != old(core)@.local_id,
    ensures
        (exists|i: int| 0 <= i < r.stopped@.len() && (#[trigger] r.stopped@[i])@.id == id) <==> {
            &&& forall|p: int|
                0 <= p < old(core)@.configurations.latest.len() ==> (
                #[trigger] old(core)@.configurations.latest[p]).id != id
            &&& exists|j: int|
                0 <= j < old(ls)@.repl.len() && (#[trigger] old(ls)@.repl[j]).peer.id == id
        },
{
    let n = old(core)@;
    let servers = n.configurations.latest;
    let all = with_servers_replicated(n, old(ls)@.repl, servers, now);
    let gone = unwanted_replication(n, all);
    let stopped = server_views(r.stopped@);
    lemma_new_servers(n, old(ls)@.repl, servers, now, id);
    lemma_unwanted_are_those(n, all, id);
    assert(peers_of(gone).len() == gone.len());
    assert(stopped.len() == r.stopped@.len());
    if exists|i: int| 0 <= i < r.stopped@.len() && (#[trigger] r.stopped@[i])@.id == id {
        let i = choose|i: int| 0 <= i < r.stopped@.len() && (#[trigger] r.stopped@[i])@.id == id;
        assert(stopped[i].id == id);
        assert(peers_of(gone)[i] == gone[i].peer);
        assert(replicated(gone, id));
    }
    if replicated(gone, id) {
        let i = choose|i: int| 0 <= i < gone.len() && (#[trigger] gone[i]).peer.id == id;
        assert(peers_of(gone)[i] == gone[i].peer);
        assert(stopped[i] == r.stopped@[i]@);
    }
}

proof fn lemma_addresses_follow(
    n: NodeView,
    repl: Seq<ReplicationView>,
    servers: Seq<ServerView>,
    now: Instant,
    p: int,
    j: int,
)
    requires
        0 <= p < servers.len(),
        servers[p].id != n.local_id,
        forall|q: int| 0 <= q < servers.len() && q != p ==> (#[trigger] servers[q]).id
            != servers[p].id,
        0 <= j < with_servers_replicated(n, repl, servers, now).len(),
        with_servers_replicated(n, repl, servers, now)[j].peer.id == servers[p].id,
    ensures
        with_servers_replicated(n, repl, servers, now)[j].peer.address == servers[p].address,
    decreases servers.len(),
{
    let front = servers.drop_last();
    let known = with_servers_replicated(n, repl, front, now);
    let s = servers.last();
    if p < servers.len() - 1 {
        assert(servers[servers.len() - 1].id != servers[p].id);
        assert(front[p] == servers[p]);
        assert(forall|q: int| 0 <= q < front.len() ==> #[trigger] front[q] == servers[q]);
        assert(j < known.len());
        lemma_addresses_follow(n, repl, front, now, p, j);
    }
}

/// Followers are sent to where the membership says that they are.
pub proof fn law_followers_are_sent_to_their_address(
    core: &mut RaftCore,
    ls: &mut LeaderState,
    now: Instant,
    r: ReplicationChanges,
    p: int,
    i: int,
)
    requires
        call_ensures(RaftCore::start_stop_replication, (core, ls, now), r),
        0 <= p < old(core)@.configurations.latest.len(),
        old(core)@.configurations.latest[p].id != old(core)@.local_id,
        forall|q: int|
            0 <= q < old(core)@.configurations.latest.len() && q != p ==> (
            #[trigger] old(core)@.configurations.latest[q]).id
                != old(core)@.configurations.latest[p].id,
        0 <= i < final(ls)@.repl.len(),
        final(ls)@.repl[i].peer.id == old(core)@.configurations.latest[p].id,
    ensures
        final(ls)@.repl[i].peer.address == old(core)@.configurations.latest[p].address,
{
    let n = old(core)@;
    let servers = n.configurations.latest;
    let all = with_servers_replicated(n, old(ls)@.repl, servers, now);
    lemma_wanted_are_of_all(n, all, i);
    let j = choose|j: int| 0 <= j < all.len() && #[trigger] all[j] == wanted_replication(n, all)[i];
    lemma_addresses_follow(n, old(ls)@.repl, servers, now, p, j);
}

/// No follower is asked any more for a verification that was answered; each is
/// still asked for the others.
pub proof fn law_answered_verifications_are_asked_no_more(
    core: &mut RaftCore,
    ls: &mut LeaderState,
    ticket: u64,
    r: VerifyAnswer,
    i: int,
    other: u64,
)
    requires
        call_ensures(RaftCore::verify_decided, (core, ls, ticket), r),
        r != VerifyAnswer::Unknown,
        0 <= i < old(ls)@.repl.len(),
    ensures
        final(ls)@.repl.len() == old(ls)@.repl.len(),
        final(ls)@.repl[i].notify.contains(other) <==> old(ls)@.repl[i].notify.contains(other)
            && other != ticket,
        final(ls)@.repl[i].peer == old(ls)@.repl[i].peer,
        final(ls)@.repl[i].next_index == old(ls)@.repl[i].next_index,
{
    lemma_other_tickets_stay(old(ls)@.repl[i].notify, ticket, other);
}

} // verus!
