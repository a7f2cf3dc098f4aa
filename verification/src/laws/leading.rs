//! What a leader writes, sends, counts and commits, and when it gives way.

use crate::api::Raft;
use crate::apply::{FutureView, LogFuture};
use crate::commitment::{quorum_stores, stored_by, Commitment};
use crate::configuration::{Configuration, Server, ServerSuffrage, ServerView};
use crate::error::{RaftError, Result};
use crate::future::VerifyState;
use crate::laws::{lemma_voters_by_position, positions};
use crate::leader::{
    committed_prefix, dispatched, fail_all, fail_verifications, future_views,
    law_replication_covers_the_configuration, logs_of, AfterCommit, Committed, Dispatch,
    FailedRequest, LeaderState, LeaderView, Loss, PendingVerify, ReplicationChanges,
};
use crate::leadership::{RestorePlan, TransferStep, TransferTarget, VerifyAnswer};
use crate::log::{law_last_written_log_is_held, LogStore, LogType, LogView};
use crate::raft::{Fatal, NodeView, RaftCore};
use crate::replication::{setup_append_entries, FollowerReplication, ReplyStep};
use crate::snapshot::SnapshotMeta;
use crate::state::RaftState;
use crate::time::{Duration, Instant};
use crate::transport::{
    AppendEntriesRequest, AppendEntriesResponse, InstallSnapshotRequest, InstallSnapshotResponse,
};
use vstd::prelude::*;

verus! {

/// What a leader writes follows its log without a gap, in its own term, each
/// entry as the client gave it and in the client's order; the log ends with
/// the last of them. Where the write fails the node is no leader any more and
/// nothing is in flight.
pub proof fn law_new_entries_follow_the_log<L: LogStore>(
    core: &mut RaftCore,
    ls: &mut LeaderState,
    logs: &mut L,
    apply_logs: Vec<LogFuture>,
    now: Instant,
    r: Dispatch,
    i: int,
)
    requires
        call_ensures(RaftCore::dispatch_logs::<L>, (core, ls, logs, apply_logs, now), r),
        0 <= i < apply_logs@.len(),
        ({
            let s = old(core)@.shared;
            &&& s.last_log.0 + apply_logs@.len() <= u64::MAX
            &&& s.last_snapshot.0 + apply_logs@.len() <= u64::MAX
        }),
    ensures
        r is Written ==> ({
            let s = old(core)@.shared;
            let end = if s.last_log.0 >= s.last_snapshot.0 {
                s.last_log.0
            } else {
                s.last_snapshot.0
            };
            let index = (end + 1 + i) as u64;
            let entry = LogView {
                index,
                term: s.current_term,
                appended_at: Some(now),
                ..apply_logs@[i].log@
            };
            let at = old(ls)@.inflight.len() + i;
            &&& final(core)@.shared.last_log == ((end + apply_logs@.len()) as u64, s.current_term)
            &&& final(core)@.shared.state == s.state
            &&& final(core)@.shared.commit_index == s.commit_index
            &&& final(core)@.shared.current_term == s.current_term
            &&& old(ls)@.commitment.matched.contains_key(old(core)@.local_id)
                ==> final(ls)@.commitment.matched[old(core)@.local_id] >= end + apply_logs@.len()
            &&& final(ls)@.inflight.len() == old(ls)@.inflight.len() + apply_logs@.len()
            &&& final(ls)@.inflight[at].log == entry
            &&& final(ls)@.inflight[at].ticket == apply_logs@[i].ticket
            &&& old(logs).settled() ==> final(logs).entries().contains_key(index)
                && final(logs).entries()[index] == entry
        }),
        r is Failed ==> final(core)@.shared.state == RaftState::Follower
            && final(ls)@.inflight.len() == 0
            && final(core)@.shared.last_log == old(core)@.shared.last_log,
{
    let s = old(core)@.shared;
    let end = s.spec_last_index();
    let futures = future_views(apply_logs@);
    let new = dispatched(futures, end, s.current_term, now);
    let written = logs_of(new);
    assert(futures[i] == apply_logs@[i]@);
    assert(written[i] == new[i].log);
    if r is Written {
        assert(final(ls)@.inflight[old(ls)@.inflight.len() + i] == new[i]);
        assert forall|j: int| i < j < written.len() implies (#[trigger] written[j]).index
            != written[i].index by {
            assert(written[j] == new[j].log);
        }
        law_last_written_log_is_held(old(logs).entries(), written, i);
    }
}

/// Every request in flight, old and new, is answered with the store's own
/// complaint where the entries cannot be written.
pub proof fn law_unwritten_entries_fail<L: LogStore>(
    core: &mut RaftCore,
    ls: &mut LeaderState,
    logs: &mut L,
    apply_logs: Vec<LogFuture>,
    now: Instant,
    failed: Vec<FailedRequest>,
    loss: Loss,
    i: int,
)
    requires
        call_ensures(
            RaftCore::dispatch_logs::<L>,
            (core, ls, logs, apply_logs, now),
            Dispatch::Failed { failed, loss },
        ),
        0 <= i < failed@.len(),
    ensures
        failed@.len() == old(ls)@.inflight.len() + apply_logs@.len(),
        failed@[i].ticket == if i < old(ls)@.inflight.len() {
            old(ls)@.inflight[i].ticket
        } else {
            apply_logs@[i - old(ls)@.inflight.len()].ticket
        },
        failed@[i].error is Other,
{
    let futures = future_views(apply_logs@);
    let s = old(core)@.shared;
    let new = dispatched(futures, s.spec_last_index(), s.current_term, now);
    if i >= old(ls)@.inflight.len() {
        assert(futures[i - old(ls)@.inflight.len()] == apply_logs@[i - old(ls)@.inflight.len()]@);
        assert((old(ls)@.inflight + new)[i] == new[i - old(ls)@.inflight.len()]);
    }
}

/// The committed entries at the front are those up to the first that is not.
pub proof fn lemma_committed_prefix(inflight: Seq<FutureView>, commit: u64)
    ensures
        committed_prefix(inflight, commit) <= inflight.len(),
        forall|i: int|
            0 <= i < committed_prefix(inflight, commit) ==> (#[trigger] inflight[i]).log.index
                <= commit,
        committed_prefix(inflight, commit) < inflight.len() ==> inflight[committed_prefix(
            inflight,
            commit,
        ) as int].log.index > commit,
    decreases inflight.len(),
{
    if inflight.len() > 0 && inflight[0].log.index <= commit {
        let rest = inflight.drop_first();
        lemma_committed_prefix(rest, commit);
        assert forall|i: int| 0 <= i < committed_prefix(inflight, commit) implies (
        #[trigger] inflight[i]).log.index <= commit by {
            if i > 0 {
                assert(inflight[i] == rest[i - 1]);
            }
        }
        let k = committed_prefix(rest, commit) as int;
        if k < rest.len() {
            assert(inflight[k + 1] == rest[k]);
        }
    }
}

/// A leader's commit index is the one that the majority has reached. What is
/// in flight up to it is done with, in order, and the rest stays; a membership
/// is committed as soon as its entry is, and not before.
pub proof fn law_leader_commits_what_the_majority_holds<L: LogStore>(
    core: &mut RaftCore,
    ls: &mut LeaderState,
    logs: &L,
    done: Committed,
)
    requires
        call_ensures(
            RaftCore::commit_advanced::<L>,
            (core, ls, logs),
            Ok::<Committed, Fatal>(done),
        ),
    ensures
        ({
            let n = old(core)@;
            let after = final(core)@;
            let commit = old(ls)@.commitment.commit_index;
            let all = old(ls)@.inflight;
            let rest = final(ls)@.inflight;
            let gone = all.len() - rest.len();
            let newly = n.shared.commit_index < n.configurations.latest_index <= commit;
            let voter = exists|i: int|
                0 <= i < n.configurations.latest.len() && (
                #[trigger] n.configurations.latest[i]).id == n.local_id
                    && n.configurations.latest[i].suffrage == ServerSuffrage::Voter;
            let leaving = old(ls)@.step_down || (newly && !voter);
            &&& after.shared.commit_index == commit
            &&& 0 <= gone <= all.len()
            &&& rest == all.skip(gone)
            &&& forall|i: int| 0 <= i < gone ==> (#[trigger] all[i]).log.index <= commit
            &&& rest.len() > 0 ==> rest[0].log.index > commit
            &&& after.shared.last_applied == if gone > 0 && all[gone - 1].log.index
                > n.shared.last_applied {
                all[gone - 1].log.index
            } else {
                n.shared.last_applied
            }
            &&& gone == 0 ==> done.applying.batches@.len() == 0
            &&& after.configurations.latest == n.configurations.latest
            &&& after.configurations.committed == if newly {
                n.configurations.latest
            } else {
                n.configurations.committed
            }
            &&& after.configurations.committed_index == if newly {
                n.configurations.latest_index
            } else {
                n.configurations.committed_index
            }
            &&& done.next == AfterCommit::Lead <==> !leaving
            &&& !leaving ==> after.shared.state == n.shared.state
            &&& leaving && !n.conf.shutdown_on_remove ==> after.shared.state
                == RaftState::Follower && done.next == AfterCommit::Follow
            &&& leaving && n.conf.shutdown_on_remove ==> after.shutdown && done.next
                == AfterCommit::ShutDown
            &&& final(ls)@.commitment == old(ls)@.commitment
            &&& after.shared.current_term == n.shared.current_term
        }),
{
    let all = old(ls)@.inflight;
    let commit = old(ls)@.commitment.commit_index;
    lemma_committed_prefix(all, commit);
    let k = committed_prefix(all, commit) as int;
    assert(final(ls)@.inflight.len() == all.len() - k);
    if k < all.len() {
        assert(final(ls)@.inflight[0] == all[k]);
    }
}

proof fn lemma_majority_by_count(matched: Map<Seq<char>, u64>, index: u64)
    requires
        matched.dom().finite(),
    ensures
        ({
            let holders = Set::new(
                |voter: Seq<char>| matched.contains_key(voter) && matched[voter] >= index,
            );
            &&& holders.finite()
            &&& quorum_stores(matched, index) <==> 2 * holders.len() > matched.dom().len()
        }),
{
    let holders = Set::new(
        |voter: Seq<char>| matched.contains_key(voter) && matched[voter] >= index,
    );
    assert(holders =~= stored_by(matched, index));
}

/// The commit index moves only forward, only within the leader's own term, and
/// only to an index that more than half of the voters are known to hold; and it
/// moves to the highest of those. A report counts where it comes from a voter
/// and is news, and for that voter alone.
pub proof fn law_commitment_follows_the_majority(
    c: &mut Commitment,
    server: &str,
    index: u64,
    other: Seq<char>,
    higher: u64,
)
    requires
        call_ensures(Commitment::match_index, (c, server, index), ()),
        old(c)@.matched.dom().finite(),
        old(c)@.matched.dom().len() > 0,
    ensures
        ({
            let before = old(c)@;
            let after = final(c)@;
            let holders = Set::new(
                |voter: Seq<char>|
                    after.matched.contains_key(voter) && after.matched[voter]
                        >= after.commit_index,
            );
            let further = Set::new(
                |voter: Seq<char>|
                    after.matched.contains_key(voter) && after.matched[voter] >= higher,
            );
            &&& after.commit_index >= before.commit_index
            &&& after.start_index == before.start_index
            &&& after.commit_index > before.commit_index ==> {
                &&& 2 * holders.len() > after.matched.dom().len()
                &&& after.commit_index >= before.start_index
                &&& after.notice
            }
            &&& higher > after.commit_index && higher >= after.start_index ==> 2 * further.len()
                <= after.matched.dom().len()
            &&& after.matched.dom() == before.matched.dom()
            &&& other != server@ && before.matched.contains_key(other) ==> after.matched[other]
                == before.matched[other]
            &&& before.matched.contains_key(server@) ==> after.matched[server@] == if index
                > before.matched[server@] {
                index
            } else {
                before.matched[server@]
            }
        }),
{
    let after = final(c)@;
    assert(after.matched.dom() =~= old(c)@.matched.dom());
    lemma_majority_by_count(after.matched, after.commit_index);
    lemma_majority_by_count(after.matched, higher);
}

/// A change of the membership decides anew what is committed: the voters of
/// the new one count, each with what it was known to hold.
pub proof fn law_new_voters_decide_what_is_committed(
    c: &mut Commitment,
    configuration: &Configuration,
    id: Seq<char>,
)
    requires
        call_ensures(Commitment::set_configuration, (c, configuration), ()),
    ensures
        final(c)@.matched.contains_key(id) <==> exists|i: int|
            0 <= i < configuration@.len() && (#[trigger] configuration@[i]).id == id
                && configuration@[i].suffrage == ServerSuffrage::Voter,
        final(c)@.matched.contains_key(id)
            ==> final(c)@.matched[id] == if old(c)@.matched.contains_key(id) {
            old(c)@.matched[id]
        } else {
            0
        },
        final(c)@.commit_index >= old(c)@.commit_index,
        final(c)@.start_index == old(c)@.start_index,
{
}

/// A term of leadership begins with nothing known of the voters, and with
/// nothing committed before an entry of that term is.
pub proof fn law_leadership_begins_afresh(core: &RaftCore, ls: LeaderState, id: Seq<char>)
    requires
        call_ensures(RaftCore::begin_leadership, (core,), ls),
    ensures
        ls@.inflight.len() == 0,
        ls@.repl.len() == 0,
        ls@.notify.len() == 0,
        !ls@.transferring,
        !ls@.step_down,
        ls@.commitment.commit_index == 0,
        ls@.commitment.start_index > core@.shared.last_log.0,
        ls@.commitment.start_index > core@.shared.last_snapshot.0,
        ls@.commitment.start_index == core@.shared.last_log.0 + 1 || ls@.commitment.start_index
            == core@.shared.last_snapshot.0 + 1,
        ls@.commitment.matched.contains_key(id) <==> exists|i: int|
            0 <= i < core@.configurations.latest.len() && (
            #[trigger] core@.configurations.latest[i]).id == id
                && core@.configurations.latest[i].suffrage == ServerSuffrage::Voter,
        ls@.commitment.matched.contains_key(id) ==> ls@.commitment.matched[id] == 0,
{
}

/// A request carries what the follower lacks next: the entries from its next
/// index on, in order and as they are stored, as many as a batch holds or the
/// log has; and it names the entry before them and the commit index.
pub proof fn law_requests_carry_what_comes_next<L: LogStore>(
    core: &RaftCore,
    logs: &L,
    term: u64,
    next: u64,
    last: u64,
    req: AppendEntriesRequest,
    i: int,
)
    requires
        call_ensures(
            setup_append_entries::<L>,
            (core, logs, term, next, last),
            Ok::<AppendEntriesRequest, RaftError>(req),
        ),
        next >= 1,
        next + core@.conf.max_append_entries <= u64::MAX,
    ensures
        req.term == term,
        req.leader_commit_index == core@.shared.commit_index,
        req.header.id@ == core@.local_id,
        req.header.addr@ == core@.local_addr,
        req.entries@.len() <= core@.conf.max_append_entries,
        next > last ==> req.entries@.len() == 0,
        next <= last && last - next + 1 <= core@.conf.max_append_entries ==> req.entries@.len()
            == last - next + 1,
        next <= last && last - next + 1 > core@.conf.max_append_entries ==> req.entries@.len()
            == core@.conf.max_append_entries,
        0 <= i < req.entries@.len() ==> logs.entries().contains_key((next + i) as u64)
            && req.entries@[i]@ == logs.entries()[(next + i) as u64],
        next == 1 ==> req.prev_log_entry == 0 && req.prev_log_term == 0,
        next > 1 && next - 1 == core@.shared.last_snapshot.0 ==> req.prev_log_entry == next - 1
            && req.prev_log_term == core@.shared.last_snapshot.1,
        next > 1 && next - 1 != core@.shared.last_snapshot.0 ==> req.prev_log_entry
            == logs.entries()[(next - 1) as u64].index && req.prev_log_term
            == logs.entries()[(next - 1) as u64].term,
{
    let views = crate::log::log_views(req.entries@);
    assert(views.len() == req.entries@.len());
    if 0 <= i < req.entries@.len() {
        assert(views[i] == req.entries@[i]@);
        assert(logs.entries().contains_key((next + i) as u64));
    }
}

/// A follower that took a request is known to hold what was sent, is sent what
/// comes after it next, and has been heard of; one that knows a newer term
/// stops the replication and is credited with nothing; one that refused is
/// asked for something older and is credited with nothing.
pub proof fn law_replies_move_the_follower(
    repl: &mut FollowerReplication,
    commitment: &mut Commitment,
    req: &AppendEntriesRequest,
    resp: &AppendEntriesResponse,
    last_index: u64,
    allow_pipeline: &mut bool,
    now: Instant,
    step: ReplyStep,
    voted: Vec<u64>,
    positive: bool,
)
    requires
        call_ensures(
            FollowerReplication::append_replied,
            (repl, commitment, req, resp, last_index, allow_pipeline, now),
            (step, voted, positive),
        ),
        req.entries@.len() > 0 ==> req.entries@.last().index < u64::MAX,
        resp.last_log < u64::MAX,
        old(repl)@.failures < u64::MAX,
        old(repl)@.next_index >= 1,
    ensures
        final(repl)@.peer == old(repl)@.peer,
        step == ReplyStep::Stop <==> resp.term > req.term,
        resp.term > req.term ==> {
            &&& final(commitment)@ == old(commitment)@
            &&& final(repl)@.next_index == old(repl)@.next_index
            &&& final(repl)@.last_contact == old(repl)@.last_contact
            &&& voted@ == old(repl)@.notify && !positive
        },
        resp.term <= req.term && resp.success ==> {
            &&& final(repl)@.last_contact == now
            &&& final(repl)@.failures == 0
            &&& voted@ == old(repl)@.notify && positive
            &&& final(repl)@.notify.len() == 0
            &&& *final(allow_pipeline)
            &&& req.entries@.len() == 0 ==> final(repl)@.next_index == old(repl)@.next_index
                && final(commitment)@ == old(commitment)@
            &&& req.entries@.len() > 0 ==> {
                let sent = req.entries@.last().index;
                let id = old(repl)@.peer.id;
                &&& final(repl)@.next_index == sent + 1
                &&& old(commitment)@.matched.contains_key(id) ==> final(commitment)@.matched[id]
                    == if sent > old(commitment)@.matched[id] {
                    sent
                } else {
                    old(commitment)@.matched[id]
                }
            }
        },
        resp.term <= req.term && !resp.success ==> {
            &&& final(commitment)@ == old(commitment)@
            &&& final(repl)@.last_contact == now
            &&& 1 <= final(repl)@.next_index <= old(repl)@.next_index
            &&& old(repl)@.next_index > 1 ==> final(repl)@.next_index < old(repl)@.next_index
                && final(repl)@.next_index <= resp.last_log + 1
            &&& old(repl)@.next_index > 1 && old(repl)@.next_index - 1 <= resp.last_log + 1
                ==> final(repl)@.next_index == old(repl)@.next_index - 1
            &&& voted@.len() == 0
            &&& final(repl)@.notify == old(repl)@.notify
            &&& resp.no_retry_backoff ==> final(repl)@.failures == 0
            &&& !resp.no_retry_backoff ==> final(repl)@.failures == old(repl)@.failures + 1
        },
        resp.term <= req.term ==> (step == ReplyStep::More <==> final(repl)@.next_index
            <= last_index),
{
    let views = crate::log::log_views(req.entries@);
    if req.entries@.len() > 0 {
        assert(views.last() == req.entries@.last()@);
    }
}

/// The same holds of a request on the pipeline, which goes on only while
/// requests are taken.
pub proof fn law_pipelined_replies_move_the_follower(
    repl: &mut FollowerReplication,
    commitment: &mut Commitment,
    req: &AppendEntriesRequest,
    resp: &AppendEntriesResponse,
    now: Instant,
    goes_on: bool,
    steps_down: bool,
    voted: Vec<u64>,
)
    requires
        call_ensures(
            FollowerReplication::pipeline_replied,
            (repl, commitment, req, resp, now),
            (goes_on, steps_down, voted),
        ),
        req.entries@.len() > 0 ==> req.entries@.last().index < u64::MAX,
    ensures
        steps_down <==> resp.term > req.term,
        goes_on <==> resp.term <= req.term && resp.success,
        !goes_on ==> final(commitment)@ == old(commitment)@
            && final(repl)@.next_index == old(repl)@.next_index,
        resp.term <= req.term ==> final(repl)@.last_contact == now,
        resp.term > req.term ==> final(repl)@.last_contact == old(repl)@.last_contact,
        goes_on && req.entries@.len() > 0 ==> {
            let sent = req.entries@.last().index;
            let id = old(repl)@.peer.id;
            &&& final(repl)@.next_index == sent + 1
            &&& old(commitment)@.matched.contains_key(id) ==> final(commitment)@.matched[id]
                == if sent > old(commitment)@.matched[id] {
                sent
            } else {
                old(commitment)@.matched[id]
            }
        },
{
    let views = crate::log::log_views(req.entries@);
    if req.entries@.len() > 0 {
        assert(views.last() == req.entries@.last()@);
    }
}

/// A follower that installed a snapshot holds what it covers and is sent what
/// comes after it; one that did not is credited with nothing.
pub proof fn law_installed_snapshots_move_the_follower(
    repl: &mut FollowerReplication,
    commitment: &mut Commitment,
    req: &InstallSnapshotRequest,
    resp: &InstallSnapshotResponse,
    last_index: u64,
    now: Instant,
    step: ReplyStep,
    voted: Vec<u64>,
    positive: bool,
)
    requires
        call_ensures(
            FollowerReplication::snapshot_replied,
            (repl, commitment, req, resp, last_index, now),
            (step, voted, positive),
        ),
        req.last_log_index < u64::MAX,
        old(repl)@.failures < u64::MAX,
    ensures
        step == ReplyStep::Stop <==> resp.term > req.term,
        resp.term > req.term || !resp.success
            ==> final(commitment)@ == old(commitment)@
            && final(repl)@.next_index == old(repl)@.next_index,
        resp.term <= req.term && resp.success ==> {
            let id = old(repl)@.peer.id;
            &&& final(repl)@.next_index == req.last_log_index + 1
            &&& final(repl)@.failures == 0
            &&& voted@ == old(repl)@.notify && positive
            &&& old(commitment)@.matched.contains_key(id) ==> final(commitment)@.matched[id]
                == if req.last_log_index > old(commitment)@.matched[id] {
                req.last_log_index
            } else {
                old(commitment)@.matched[id]
            }
        },
        resp.term <= req.term && !resp.success ==> final(repl)@.failures == old(repl)@.failures
            + 1,
        resp.term <= req.term ==> final(repl)@.last_contact == now,
{
}

/// A vote on a verification decides it once: the first that is negative, or
/// the one that makes up the quorum.
pub proof fn law_verification_takes_a_quorum(v: &mut VerifyState, leader: bool, decided: bool)
    requires
        call_ensures(VerifyState::vote, (v, leader), decided),
        old(v).armed ==> old(v).votes < usize::MAX,
    ensures
        decided ==> old(v).armed && !final(v).armed,
        old(v).armed && !leader ==> decided && final(v).votes == old(v).votes,
        old(v).armed && leader ==> final(v).votes == old(v).votes + 1
            && (decided <==> final(v).votes >= final(v).quorum_size),
        !old(v).armed ==> *final(v) == *old(v),
        final(v).quorum_size == old(v).quorum_size,
        !decided ==> final(v).armed == old(v).armed,
{
}

/// A verification begins with the leader's own vote, needs more than half of
/// the voters, and asks every follower; a leader that is a majority by itself
/// is confirmed at once.
pub proof fn law_verification_asks_every_follower(
    core: &mut RaftCore,
    ls: &mut LeaderState,
    ticket: u64,
    confirmed: bool,
    i: int,
)
    requires
        call_ensures(RaftCore::verify_leader, (core, ls, ticket), confirmed),
        old(core)@.configurations.latest.len() < usize::MAX,
    ensures
        ({
            let servers = old(core)@.configurations.latest;
            let voters = Set::new(
                |p: int| 0 <= p < servers.len() && servers[p].suffrage == ServerSuffrage::Voter,
            );
            let needed = final(ls)@.notify.last().state.quorum_size;
            &&& voters.finite()
            &&& confirmed <==> voters.len() <= 1
            &&& confirmed ==> final(ls)@ == old(ls)@
            &&& !confirmed ==> {
                &&& final(ls)@.notify.len() == old(ls)@.notify.len() + 1
                &&& final(ls)@.notify.last().ticket == ticket
                &&& final(ls)@.notify.last().state.votes == 1
                &&& final(ls)@.notify.last().state.armed
                &&& 2 * needed > voters.len()
                &&& 2 * (needed - 1) <= voters.len()
                &&& final(ls)@.repl.len() == old(ls)@.repl.len()
                &&& 0 <= i < final(ls)@.repl.len()
                    ==> final(ls)@.repl[i].notify == old(ls)@.repl[i].notify.push(ticket)
            }
            &&& final(core)@ == old(core)@
        }),
{
    let servers = old(core)@.configurations.latest;
    lemma_voters_by_position(servers);
    crate::laws::electing::lemma_voters_are_few(servers);
    assert(Set::new(
        |p: int| 0 <= p < servers.len() && servers[p].suffrage == ServerSuffrage::Voter,
    ) =~= positions(servers, |s: ServerView| s.suffrage == ServerSuffrage::Voter));
}

/// Leadership is confirmed only with the votes that a verification needs;
/// where it lacks them this node is no leader any more.
pub proof fn law_unconfirmed_leaders_step_down(
    core: &mut RaftCore,
    ls: &mut LeaderState,
    ticket: u64,
    r: VerifyAnswer,
)
    requires
        call_ensures(RaftCore::verify_decided, (core, ls, ticket), r),
    ensures
        r == VerifyAnswer::Confirmed ==> final(core)@ == old(core)@ && exists|i: int|
            0 <= i < old(ls)@.notify.len() && (#[trigger] old(ls)@.notify[i]).ticket == ticket
                && old(ls)@.notify[i].state.votes >= old(ls)@.notify[i].state.quorum_size,
        r == VerifyAnswer::NotLeader ==> final(core)@.shared.state == RaftState::Follower
            && exists|i: int|
            0 <= i < old(ls)@.notify.len() && (#[trigger] old(ls)@.notify[i]).ticket == ticket
                && old(ls)@.notify[i].state.votes < old(ls)@.notify[i].state.quorum_size,
        r == VerifyAnswer::Unknown <==> forall|i: int|
            0 <= i < old(ls)@.notify.len() ==> (#[trigger] old(ls)@.notify[i]).ticket != ticket,
{
}

/// Leadership is handed only to a voter that is not this node, where no target
/// is named, and only to a server that is replicated to.
pub proof fn law_transfer_goes_to_another_voter(
    core: &RaftCore,
    ls: &mut LeaderState,
    id: Option<String>,
    address: Option<String>,
    r: Result<TransferTarget>,
)
    requires
        call_ensures(RaftCore::begin_transfer, (core, ls, id, address), r),
    ensures
        r is Ok ==> final(ls)@.transferring && !old(ls)@.transferring,
        r is Err ==> final(ls)@ == old(ls)@,
        old(ls)@.transferring ==> r is Err,
        r matches Ok(target) ==> exists|i: int|
            0 <= i < old(ls)@.repl.len() && (#[trigger] old(ls)@.repl[i]).peer.id == target.id@,
        r matches Ok(target) ==> match (id, address) {
            (Some(i), Some(a)) => target.id@ == i@ && target.address@ == a@,
            _ => target.id@ != core@.local_id && exists|k: int|
                0 <= k < core@.configurations.latest.len() && (
                #[trigger] core@.configurations.latest[k]).id == target.id@
                    && core@.configurations.latest[k].address == target.address@
                    && core@.configurations.latest[k].suffrage == ServerSuffrage::Voter,
        },
        final(ls)@.inflight == old(ls)@.inflight,
{
}

/// A target is told to stand exactly once it holds the whole log.
pub proof fn law_transfer_waits_for_the_target(
    core: &RaftCore,
    next_index: u64,
    id: &str,
    now: Instant,
    deadline: Instant,
    r: TransferStep,
)
    requires
        call_ensures(RaftCore::transfer_step, (core, next_index, id, now, deadline), r),
    ensures
        r is Send <==> next_index > core@.shared.last_log.0,
        r is TimedOut <==> next_index <= core@.shared.last_log.0 && now.nanos >= deadline.nanos,
{
}

/// A membership is in use from the moment its entry is dispatched: it is the
/// latest, at the end of the log; its voters decide what is committed; and
/// every other server of it, and no other, is replicated to.
pub proof fn law_dispatched_membership_is_in_use<L: LogStore>(
    core: &mut RaftCore,
    ls: &mut LeaderState,
    logs: &mut L,
    configuration: Configuration,
    data: Vec<u8>,
    ticket: Option<u64>,
    now: Instant,
    r: (Dispatch, ReplicationChanges),
    id: Seq<char>,
)
    requires
        call_ensures(
            RaftCore::append_configuration_entry::<L>,
            (core, ls, logs, configuration, data, ticket, now),
            r,
        ),
        old(core)@.shared.last_log.0 + 1 < u64::MAX,
        old(core)@.shared.last_snapshot.0 + 1 < u64::MAX,
        r.0 is Written,
    ensures
        ({
            let after = final(core)@;
            let s = old(core)@.shared;
            let end = if s.last_log.0 >= s.last_snapshot.0 {
                s.last_log.0
            } else {
                s.last_snapshot.0
            };
            &&& after.shared.last_log == ((end + 1) as u64, s.current_term)
            &&& after.configurations.latest == configuration@
            &&& after.configurations.latest_index == end + 1
            &&& after.configurations.committed == old(core)@.configurations.committed
            &&& after.configurations.committed_index == old(core)@.configurations.committed_index
            &&& after.readable == configuration@
            &&& r.1.last_index == end + 1
            &&& (exists|i: int|
                0 <= i < final(ls)@.repl.len() && (#[trigger] final(ls)@.repl[i]).peer.id == id)
                <==> id != after.local_id && exists|j: int|
                0 <= j < configuration@.len() && (#[trigger] configuration@[j]).id == id
            &&& final(ls)@.commitment.matched.contains_key(id) <==> exists|i: int|
                0 <= i < configuration@.len() && (#[trigger] configuration@[i]).id == id
                    && configuration@[i].suffrage == ServerSuffrage::Voter
            &&& final(ls)@.inflight.len() == old(ls)@.inflight.len() + 1
            &&& final(ls)@.inflight.last().log.log_type == LogType::Configuration
            &&& final(ls)@.inflight.last().log.data == data@
            &&& final(ls)@.inflight.last().log.index == end + 1
            &&& final(ls)@.inflight.last().ticket == ticket
        }),
{
    let (n, l) = choose|n: NodeView, l: LeaderView|
        {
            &&& #[trigger] crate::leadership::entry_dispatched(
                old(core)@,
                old(ls)@,
                *old(logs),
                crate::leadership::configuration_entry(data@, ticket),
                now,
                r.0,
                n,
                l,
                *final(logs),
            )
            &&& crate::leadership::put_to_use(
                n,
                l,
                configuration@,
                now,
                r.1,
                final(core)@,
                final(ls)@,
            )
        };
    let m = crate::raft::with_latest(n, configuration@, n.shared.spec_last_index());
    law_replication_covers_the_configuration(m, l.repl, now, id);
    crate::leader::lemma_observing_keeps_the_rest(
        m,
        crate::leader::newly_replicated(m, l.repl, configuration@, now),
    );
    crate::leader::lemma_observing_removals_keeps_the_rest(
        crate::leader::observed_added(
            m,
            crate::leader::newly_replicated(m, l.repl, configuration@, now),
        ),
        crate::leader::unwanted_replication(
            m,
            crate::leader::with_servers_replicated(m, l.repl, configuration@, now),
        ),
    );
}

/// A change of the membership waits until the one before it is committed and
/// an entry of this leader's term is.
pub proof fn law_changes_wait_for_each_other(core: &RaftCore, ls: &LeaderState, r: bool)
    requires
        call_ensures(RaftCore::configuration_change_stable, (core, ls), r),
    ensures
        r ==> core@.configurations.latest_index == core@.configurations.committed_index,
        r ==> core@.shared.commit_index >= ls@.commitment.start_index,
        core@.configurations.latest_index == core@.configurations.committed_index
            && core@.shared.commit_index >= ls@.commitment.start_index ==> r,
{
}

/// Whoever gives up leadership answers every request in flight, and every
/// pending verification, with lost leadership, in order; and does not take
/// itself for the leader any more.
pub proof fn law_lost_leadership_is_answered(
    core: &mut RaftCore,
    ls: LeaderState,
    now: Instant,
    lost: Vec<FailedRequest>,
    unverified: Vec<FailedRequest>,
    i: int,
)
    requires
        call_ensures(RaftCore::end_leadership, (core, ls, now), (lost, unverified)),
    ensures
        lost@.len() == ls@.inflight.len(),
        0 <= i < lost@.len() ==> lost@[i].ticket == ls@.inflight[i].ticket && lost@[i].error
            is LeadershipLost,
        unverified@.len() == ls@.notify.len(),
        0 <= i < unverified@.len() ==> unverified@[i].ticket == Some(ls@.notify[i].ticket)
            && unverified@[i].error is LeadershipLost,
        old(core)@.local_addr.len() > 0 && final(core)@.leader_addr == old(core)@.local_addr
            ==> final(core)@.leader_id != old(core)@.local_id,
        final(core)@.shared.last_contact == Some(now),
        final(core)@.shared.current_term == old(core)@.shared.current_term,
        final(core)@.shared.state == old(core)@.shared.state,
{
}

/// A user's snapshot is restored past both the log and itself, in the current
/// term, with the cluster's own membership; and what is in flight is answered
/// with the restore. It is not while a membership is uncommitted.
pub proof fn law_restore_keeps_the_membership(
    core: &RaftCore,
    ls: &mut LeaderState,
    meta: &SnapshotMeta,
    r: Result<RestorePlan>,
    i: int,
)
    requires
        call_ensures(RaftCore::begin_restore, (core, ls, meta), r),
        meta.index < u64::MAX,
        core@.shared.last_log.0 < u64::MAX,
        core@.shared.last_snapshot.0 < u64::MAX,
    ensures
        r is Ok <==> meta.version == 1 && core@.configurations.committed_index
            == core@.configurations.latest_index,
        r is Err ==> final(ls)@ == old(ls)@,
        r matches Ok(plan) ==> {
            &&& plan.create.index > meta.index
            &&& plan.create.index > core@.shared.last_log.0
            &&& plan.create.index > core@.shared.last_snapshot.0
            &&& plan.create.index - 1 == meta.index || plan.create.index - 1
                == core@.shared.last_log.0 || plan.create.index - 1 == core@.shared.last_snapshot.0
            &&& plan.create.term == core@.shared.current_term
            &&& plan.create.configuration@ == core@.configurations.latest
            &&& plan.create.configuration_index == core@.configurations.latest_index
            &&& plan.aborted@.len() == old(ls)@.inflight.len()
            &&& 0 <= i < plan.aborted@.len()
                ==> plan.aborted@[i].ticket == old(ls)@.inflight[i].ticket
                && plan.aborted@[i].error is AbortedByRestore
            &&& final(ls)@.inflight.len() == 0
        },
{
}

/// After a restore the log, what is applied and the last snapshot all end with
/// the restored snapshot.
pub proof fn law_restore_ends_with_the_snapshot(core: &mut RaftCore, index: u64, term: u64)
    requires
        call_ensures(RaftCore::finish_restore, (core, index, term), ()),
    ensures
        final(core)@.shared.last_log == (index, term),
        final(core)@.shared.last_snapshot == (index, term),
        final(core)@.shared.last_applied == index,
        final(core)@.shared.commit_index == old(core)@.shared.commit_index,
        final(core)@.configurations == old(core)@.configurations,
{
}

/// While leadership is handed over no entry of a client and no restore is
/// taken, and a leader that is about to leave takes no entry.
pub proof fn law_busy_leaders_refuse(
    ls: &LeaderState,
    apply: Option<RaftError>,
    restore: Option<RaftError>,
)
    requires
        call_ensures(RaftCore::apply_refusal, (ls,), apply),
        call_ensures(RaftCore::restore_refusal, (ls,), restore),
    ensures
        apply is Some <==> ls@.transferring || ls@.step_down,
        restore is Some <==> ls@.transferring,
        ls@.transferring ==> apply->Some_0 is LeadershipTransferInProgress && restore->Some_0
            is LeadershipTransferInProgress,
        !ls@.transferring && ls@.step_down ==> apply->Some_0 is NotLeader,
{
}

/// The next check of the lease comes no later than the longest silence runs
/// out, and not too soon.
pub proof fn law_lease_is_checked_in_time(lease: Duration, silence: Duration, r: Duration)
    requires
        call_ensures(crate::leadership::lease_check_interval, (lease, silence), r),
    ensures
        r@ >= 10_000_000,
        r@ > 10_000_000 ==> silence@ + r@ == lease@,
        lease@ >= silence@ + 10_000_000 ==> silence@ + r@ == lease@,
{
}

/// Leadership is not handed to oneself.
pub proof fn law_no_transfer_to_oneself(raft: &Raft, id: &Option<String>, r: Result<()>)
    requires
        call_ensures(Raft::check_transfer, (raft, id), r),
    ensures
        r is Err <==> (id matches Some(target) && target@ == raft.core@.local_id),
{
}

/// The transfer is over once it ended, whatever came of it.
pub proof fn law_ended_transfer_is_over(ls: &mut LeaderState)
    requires
        call_ensures(RaftCore::end_transfer, (ls,), ()),
    ensures
        !final(ls)@.transferring,
        final(ls)@.inflight == old(ls)@.inflight,
        final(ls)@.commitment == old(ls)@.commitment,
        final(ls)@.repl == old(ls)@.repl,
{
}

/// Leadership goes to the first other voter of the membership, if there is one.
pub proof fn law_first_other_voter_is_picked(core: &RaftCore, r: Option<Server>, k: int)
    requires
        call_ensures(RaftCore::pick_server_for_transfer, (core,), r),
        0 <= k < core@.configurations.latest.len(),
        core@.configurations.latest[k].suffrage == ServerSuffrage::Voter,
        core@.configurations.latest[k].id != core@.local_id,
    ensures
        r matches Some(server) && exists|i: int|
            0 <= i <= k && #[trigger] core@.configurations.latest[i] == server@ && server@.suffrage
                == ServerSuffrage::Voter && server@.id != core@.local_id,
{
    let servers = core@.configurations.latest;
    assert(crate::leadership::transferable(core@, servers[k]));
    let i = choose|i: int| #[trigger]
        crate::leadership::is_first_transferable(core@, i) && r->Some_0@ == servers[i];
    assert(servers[i] == r->Some_0@);
}

/// Nobody is picked where no other server has a vote.
pub proof fn law_only_other_voters_are_picked(core: &RaftCore, r: Option<Server>)
    requires
        call_ensures(RaftCore::pick_server_for_transfer, (core,), r),
        forall|i: int|
            0 <= i < core@.configurations.latest.len() ==> (
            #[trigger] core@.configurations.latest[i]).suffrage != ServerSuffrage::Voter
                || core@.configurations.latest[i].id == core@.local_id,
    ensures
        r is None,
{
}

/// Every request in flight is answered with why it was given up.
pub proof fn law_given_up_requests_are_told_why(
    futures: &Vec<LogFuture>,
    why: &Loss,
    failed: Vec<FailedRequest>,
    i: int,
)
    requires
        call_ensures(fail_all, (futures, why), failed),
        0 <= i < futures@.len(),
    ensures
        failed@.len() == futures@.len(),
        failed@[i].ticket == futures@[i]@.ticket,
        *why is Leadership ==> failed@[i].error is LeadershipLost,
        *why is Restore ==> failed@[i].error is AbortedByRestore,
{
    assert(future_views(futures@)[i] == futures@[i]@);
}

/// Every verification that is pending is answered likewise.
pub proof fn law_given_up_verifications_are_told_why(
    notify: &Vec<PendingVerify>,
    why: &Loss,
    failed: Vec<FailedRequest>,
    i: int,
)
    requires
        call_ensures(fail_verifications, (notify, why), failed),
        0 <= i < notify@.len(),
    ensures
        failed@.len() == notify@.len(),
        failed@[i].ticket == Some(notify@[i].ticket),
        *why is Leadership ==> failed@[i].error is LeadershipLost,
        *why is Restore ==> failed@[i].error is AbortedByRestore,
{
}

/// A transfer is begun wherever none is under way and the target is replicated
/// to.
pub proof fn law_possible_transfers_are_begun(
    core: &RaftCore,
    ls: &mut LeaderState,
    id: String,
    address: String,
    r: Result<TransferTarget>,
    i: int,
)
    requires
        call_ensures(RaftCore::begin_transfer, (core, ls, Some(id), Some(address)), r),
        !old(ls)@.transferring,
        0 <= i < old(ls)@.repl.len(),
        old(ls)@.repl[i].peer.id == id@,
    ensures
        r is Ok,
        final(ls)@.transferring,
{
    assert(crate::leader::replicated(old(ls)@.repl, id@));
}

} // verus!
