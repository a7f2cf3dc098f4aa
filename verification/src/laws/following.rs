//! What a follower does with what its leader sends, and what it keeps.

use crate::append::{
    conflicts_at, decoded_views, followed, held, law_accepted_entries_are_held,
    law_earlier_entries_are_kept, lemma_took_entries_keeps_progress, refused_by_store, rolled_back,
    took_entries, with_log_entries, AppendOutcome, AppendResult,
};
use crate::apply::{commit_at, commit_views, commits_between, flattened, CommitTuple, LogFuture};
use crate::configuration::{Configuration, ServerSuffrage, ServerView};
use crate::error::{RaftError, Result};
use crate::laws::{lemma_positions_step, lemma_voters_by_position, positions};
use crate::leader::LeaderState;
use crate::leadership::{contacted, contacted_count, span};
use crate::log::{
    law_other_indexes_keep_their_logs, log_views, without_range, LogStore, LogType, LogView,
};
use crate::raft::{Fatal, NodeView, RaftCore};
use crate::replication::ReplicationView;
use crate::snapshot::snapshot_due;
use crate::stable::StableStore;
use crate::state::RaftState;
use crate::time::{Duration, Instant};
use crate::transport::{
    AppendEntriesRequest, InstallSnapshotRequest, InstallSnapshotResponse, RPCCommand,
};
use crate::vote::HeartbeatAnswer;
use vstd::prelude::*;

verus! {

/// Each entry of a batch is among those of all batches.
proof fn lemma_batches_are_flattened(batches: Seq<Vec<CommitTuple>>, b: int, k: int)
    requires
        0 <= b < batches.len(),
        0 <= k < batches[b]@.len(),
    ensures
        exists|i: int|
            0 <= i < flattened(batches).len() && #[trigger] flattened(batches)[i]
                == batches[b]@[k]@,
    decreases batches.len(),
{
    let front = batches.drop_last();
    let last = commit_views(batches.last()@);
    if b == batches.len() - 1 {
        assert(flattened(batches)[flattened(front).len() + k] == last[k]);
    } else {
        assert(front[b] == batches[b]);
        lemma_batches_are_flattened(front, b, k);
        let i = choose|i: int|
            0 <= i < flattened(front).len() && #[trigger] flattened(front)[i] == batches[b]@[k]@;
        assert(flattened(batches)[i] == flattened(front)[i]);
    }
}

/// What is handed over between two indexes comes from an entry between them.
pub proof fn lemma_handed_over_comes_from_between(
    futures: Map<u64, LogFuture>,
    entries: Map<u64, LogView>,
    from: u64,
    to: u64,
    i: int,
)
    requires
        0 <= i < commits_between(futures, entries, from, to).len(),
    ensures
        exists|index: u64|
            from < index <= to && commits_between(futures, entries, from, to)[i]
                == #[trigger] commit_at(futures, entries, index),
        commits_between(futures, entries, from, to)[i].log.log_type != LogType::Noop,
    decreases to,
{
    if to > from {
        let before = commits_between(futures, entries, from, (to - 1) as u64);
        if i < before.len() {
            lemma_handed_over_comes_from_between(futures, entries, from, (to - 1) as u64, i);
        } else {
            assert(commits_between(futures, entries, from, to)[i] == commit_at(
                futures,
                entries,
                to,
            ));
        }
    }
}

/// What taking over the entries of an accepted request leaves as it was.
pub proof fn lemma_appending_keeps_progress(
    n: NodeView,
    stored: Map<u64, LogView>,
    req: AppendEntriesRequest,
    decoded: &Vec<Option<Configuration>>,
    outcome: AppendOutcome,
)
    ensures
        outcome matches AppendOutcome::Appended(k) ==> ({
            let f = followed(n, req.term, req.header.addr@, req.header.id@);
            let m = took_entries(
                f,
                stored,
                log_views(req.entries@),
                decoded_views(decoded@),
                k as int,
            );
            &&& m.shared.commit_index == f.shared.commit_index
            &&& m.shared.last_applied == f.shared.last_applied
            &&& m.shared.current_term == f.shared.current_term
            &&& m.shared.state == f.shared.state
            &&& m.shared.last_snapshot == f.shared.last_snapshot
            &&& m.leader_addr == f.leader_addr
            &&& m.leader_id == f.leader_id
            &&& m.conf == f.conf
        }),
{
    if let AppendOutcome::Appended(k) = outcome {
        let f = followed(n, req.term, req.header.addr@, req.header.id@);
        lemma_took_entries_keeps_progress(
            f,
            stored,
            log_views(req.entries@),
            decoded_views(decoded@),
            k as int,
        );
    }
}

/// A follower commits what its leader committed, as far as its own log goes,
/// and nothing else: not what the leader has yet to commit, and nothing where
/// the request is not accepted. It applies what it has committed.
pub proof fn law_follower_commits_what_the_leader_did<L: LogStore, S: StableStore>(
    core: &mut RaftCore,
    logs: &mut L,
    stable: &mut S,
    req: AppendEntriesRequest,
    decoded: &Vec<Option<Configuration>>,
    now: Instant,
    done: AppendResult,
)
    requires
        call_ensures(
            RaftCore::append_entries::<L, S>,
            (core, logs, stable, req, decoded, now),
            Ok::<AppendResult, Fatal>(done),
        ),
    ensures
        ({
            let before = old(core)@.shared;
            let after = final(core)@.shared;
            let leader_commit = req.leader_commit_index;
            let end = if after.last_log.0 >= after.last_snapshot.0 {
                after.last_log.0
            } else {
                after.last_snapshot.0
            };
            let advances = done.response.success && leader_commit > before.commit_index;
            &&& advances && leader_commit <= end ==> after.commit_index == leader_commit
            &&& advances && leader_commit > end ==> after.commit_index == end
            &&& !advances ==> after.commit_index == before.commit_index
            &&& after.commit_index <= before.commit_index || after.commit_index <= leader_commit
            &&& after.last_applied == if advances && after.commit_index > before.last_applied {
                after.commit_index
            } else {
                before.last_applied
            }
            &&& !advances ==> done.applying.batches@.len() == 0 && done.applying.answered@.len()
                == 0
        }),
{
    lemma_appending_keeps_progress(old(core)@, old(logs).entries(), req, decoded, done.outcome);
}

/// A follower hands its state machine only what comes after the entries that
/// it applied before, and nothing beyond what the leader said is committed;
/// no-ops are not handed over.
pub proof fn law_follower_applies_only_what_is_committed<L: LogStore, S: StableStore>(
    core: &mut RaftCore,
    logs: &mut L,
    stable: &mut S,
    req: AppendEntriesRequest,
    decoded: &Vec<Option<Configuration>>,
    now: Instant,
    done: AppendResult,
    b: int,
    k: int,
)
    requires
        call_ensures(
            RaftCore::append_entries::<L, S>,
            (core, logs, stable, req, decoded, now),
            Ok::<AppendResult, Fatal>(done),
        ),
        forall|i: u64| #[trigger]
            final(logs).entries().contains_key(i) ==> final(logs).entries()[i].index == i,
        0 <= b < done.applying.batches@.len(),
        0 <= k < done.applying.batches@[b]@.len(),
    ensures
        ({
            let entry = done.applying.batches@[b]@[k].log;
            &&& old(core)@.shared.last_applied < entry.index <= req.leader_commit_index
            &&& entry.index <= final(core)@.shared.commit_index
            &&& entry.log_type != LogType::Noop
            &&& entry@ == final(logs).entries()[entry.index]
        }),
        done.applying.batches@[b]@.len() <= old(core)@.conf.max_append_entries
            || old(core)@.conf.max_append_entries == 0,
{
    let from = old(core)@.shared.last_applied;
    let to = final(core)@.shared.commit_index;
    let stored = final(logs).entries();
    let none = Map::<u64, LogFuture>::empty();
    lemma_appending_keeps_progress(old(core)@, old(logs).entries(), req, decoded, done.outcome);
    lemma_batches_are_flattened(done.applying.batches@, b, k);
    let i = choose|i: int|
        0 <= i < flattened(done.applying.batches@).len() && #[trigger] flattened(
            done.applying.batches@,
        )[i] == done.applying.batches@[b]@[k]@;
    assert(flattened(done.applying.batches@) == commits_between(none, stored, from, to));
    lemma_handed_over_comes_from_between(none, stored, from, to, i);
    let index = choose|index: u64|
        from < index <= to && commits_between(none, stored, from, to)[i] == #[trigger] commit_at(
            none,
            stored,
            index,
        );
    assert(stored.contains_key(index));
}

/// Whoever takes a message from the leader of a term that is not older is a
/// follower in that term afterwards and knows the leader: no candidate and no
/// leader goes on beside it. Only one who stands at the leader's own bidding,
/// in the same term, goes on.
pub proof fn law_followers_follow_on_append<L: LogStore, S: StableStore>(
    core: &mut RaftCore,
    logs: &mut L,
    stable: &mut S,
    req: AppendEntriesRequest,
    decoded: &Vec<Option<Configuration>>,
    now: Instant,
    done: AppendResult,
)
    requires
        call_ensures(
            RaftCore::append_entries::<L, S>,
            (core, logs, stable, req, decoded, now),
            Ok::<AppendResult, Fatal>(done),
        ),
    ensures
        ({
            let before = old(core)@;
            let after = final(core)@;
            if req.term < before.shared.current_term {
                after == before && !done.response.success && done.response.term
                    == before.shared.current_term
            } else {
                &&& after.shared.current_term == req.term
                &&& after.leader_addr == req.header.addr@
                &&& after.leader_id == req.header.id@
                &&& done.response.term == req.term
                &&& if before.from_transfer && req.term == before.shared.current_term {
                    after.shared.state == before.shared.state
                } else {
                    after.shared.state == RaftState::Follower
                }
            }
        }),
{
    lemma_appending_keeps_progress(old(core)@, old(logs).entries(), req, decoded, done.outcome);
}

/// The same holds of a heartbeat, which also counts as contact.
pub proof fn law_followers_follow_on_heartbeat<S: StableStore>(
    core: &mut RaftCore,
    stable: &mut S,
    req: AppendEntriesRequest,
    now: Instant,
    answer: HeartbeatAnswer,
)
    requires
        !old(core)@.shutdown,
        call_ensures(
            RaftCore::process_heartbeat::<S>,
            (core, stable, RPCCommand::AppendEntries(req), now),
            Ok::<HeartbeatAnswer, Fatal>(answer),
        ),
    ensures
        answer is Answered,
        answer->Answered_0.success == (req.term >= old(core)@.shared.current_term),
        answer->Answered_0.term == final(core)@.shared.current_term,
        ({
            let before = old(core)@;
            let after = final(core)@;
            let resp = answer->Answered_0;
            &&& resp.header.id@ == before.local_id
            &&& resp.header.addr@ == before.local_addr
            &&& resp.last_log == before.shared.last_log.0 || resp.last_log
                == before.shared.last_snapshot.0
            &&& resp.last_log >= before.shared.last_log.0
            &&& resp.last_log >= before.shared.last_snapshot.0
            &&& after.shared.commit_index == before.shared.commit_index
            &&& after.shared.last_applied == before.shared.last_applied
            &&& after.shared.last_log == before.shared.last_log
            &&& after.configurations == before.configurations
            &&& if req.term < before.shared.current_term {
                after == before
            } else {
                &&& after.shared.current_term == req.term
                &&& after.leader_addr == req.header.addr@
                &&& after.leader_id == req.header.id@
                &&& after.shared.last_contact == Some(now)
                &&& if before.from_transfer && req.term == before.shared.current_term {
                    after.shared.state == before.shared.state
                } else {
                    after.shared.state == RaftState::Follower
                }
            }
        }),
{
}

/// After a snapshot was installed the node's membership, latest, committed and
/// as clients see it, is the one that came with the snapshot; what the
/// snapshot covers is applied, and nothing else has changed but the contact.
pub proof fn law_installed_snapshot_brings_its_membership<L: LogStore>(
    core: &mut RaftCore,
    logs: &mut L,
    req: &InstallSnapshotRequest,
    configuration: Configuration,
    now: Instant,
    r: InstallSnapshotResponse,
)
    requires
        call_ensures(
            RaftCore::finish_install::<L>,
            (core, logs, req, configuration, now),
            r,
        ),
    ensures
        r.success,
        r.term == req.term,
        final(core)@.configurations.latest == configuration@,
        final(core)@.configurations.latest_index == req.configuration_index,
        final(core)@.configurations.committed == configuration@,
        final(core)@.configurations.committed_index == req.configuration_index,
        final(core)@.readable == configuration@,
        final(core)@.readable_index == req.configuration_index,
        final(core)@.shared.last_applied == req.last_log_index,
        final(core)@.shared.last_snapshot == (req.last_log_index, req.last_log_term),
        final(core)@.shared.last_contact == Some(now),
        final(core)@.shared.current_term == old(core)@.shared.current_term,
        final(core)@.shared.state == old(core)@.shared.state,
        final(core)@.shared.commit_index == old(core)@.shared.commit_index,
        final(core)@.shared.last_log == old(core)@.shared.last_log,
        final(core)@.leader_addr == old(core)@.leader_addr,
        final(core)@.leader_id == old(core)@.leader_id,
{
}

proof fn lemma_contacted_by_position(
    n: NodeView,
    repl: Seq<ReplicationView>,
    servers: Seq<ServerView>,
    now: Instant,
)
    ensures
        positions(servers, |s: ServerView| contacted(n, repl, s, now)).finite(),
        positions(servers, |s: ServerView| contacted(n, repl, s, now)).len() == contacted_count(
            n,
            repl,
            servers,
            now,
        ),
    decreases servers.len(),
{
    let reached = |s: ServerView| contacted(n, repl, s, now);
    if servers.len() == 0 {
        assert(positions(servers, reached) =~= Set::empty());
    } else {
        lemma_contacted_by_position(n, repl, servers.drop_last(), now);
        lemma_positions_step(servers, reached);
    }
}

/// A leader keeps its role exactly where more than half of the voters are in
/// contact: itself, and each that was itself heard of within the lease. The
/// silence that is returned is the longest among those, within the lease.
pub proof fn law_lease_rests_on_a_majority(
    core: &mut RaftCore,
    ls: &LeaderState,
    now: Instant,
    silence: Duration,
)
    requires
        call_ensures(RaftCore::check_leader_lease, (core, ls, now), silence),
    ensures
        ({
            let n = old(core)@;
            let servers = n.configurations.latest;
            let repl = ls@.repl;
            let lease = n.conf.leader_lease_timeout;
            let voters = Set::new(
                |p: int| 0 <= p < servers.len() && servers[p].suffrage == ServerSuffrage::Voter,
            );
            let in_contact = Set::new(
                |p: int|
                    0 <= p < servers.len() && servers[p].suffrage == ServerSuffrage::Voter && (
                    servers[p].id == n.local_id || exists|i: int|
                        0 <= i < repl.len() && (#[trigger] repl[i]).peer.id == servers[p].id
                            && now.nanos <= repl[i].last_contact.nanos + lease),
            );
            &&& in_contact.finite()
            &&& voters.finite()
            &&& 2 * in_contact.len() > voters.len() ==> final(core)@ == n
            &&& 2 * in_contact.len() <= voters.len() ==> final(core)@.shared.state
                == RaftState::Follower
            &&& n.shared.state == RaftState::Leader && final(core)@.shared.state
                == RaftState::Leader ==> 2 * in_contact.len() > voters.len()
            &&& final(core)@.shared.current_term == n.shared.current_term
        }),
{
    let n = old(core)@;
    let servers = n.configurations.latest;
    let repl = ls@.repl;
    let lease = n.conf.leader_lease_timeout;
    let voters = Set::new(
        |p: int| 0 <= p < servers.len() && servers[p].suffrage == ServerSuffrage::Voter,
    );
    let in_contact = Set::new(
        |p: int|
            0 <= p < servers.len() && servers[p].suffrage == ServerSuffrage::Voter && (
            servers[p].id == n.local_id || exists|i: int|
                0 <= i < repl.len() && (#[trigger] repl[i]).peer.id == servers[p].id && now.nanos
                    <= repl[i].last_contact.nanos + lease),
    );
    lemma_voters_by_position(servers);
    lemma_contacted_by_position(n, repl, servers, now);
    assert(voters =~= positions(servers, |s: ServerView| s.suffrage == ServerSuffrage::Voter));
    assert(in_contact =~= positions(servers, |s: ServerView| contacted(n, repl, s, now)));
}

/// The silence that a check of the lease returns is that of a voter that is in
/// contact, and no voter that is in contact was silent for longer.
pub proof fn law_silence_stays_within_the_lease(
    core: &mut RaftCore,
    ls: &LeaderState,
    now: Instant,
    silence: Duration,
)
    requires
        call_ensures(RaftCore::check_leader_lease, (core, ls, now), silence),
        forall|i: int, j: int|
            0 <= i < j < ls@.repl.len() ==> (#[trigger] ls@.repl[i]).peer.id != (
            #[trigger] ls@.repl[j]).peer.id,
    ensures
        silence@ <= old(core)@.conf.leader_lease_timeout,
        forall|p: int, i: int|
            #![trigger old(core)@.configurations.latest[p], ls@.repl[i]]
            {
                let s = old(core)@.configurations.latest[p];
                let heard = ls@.repl[i].last_contact;
                0 <= p < old(core)@.configurations.latest.len() && 0 <= i < ls@.repl.len()
                    && s.suffrage == ServerSuffrage::Voter && s.id != old(core)@.local_id
                    && ls@.repl[i].peer.id == s.id && now.nanos
                        <= heard.nanos + old(core)@.conf.leader_lease_timeout
                        ==> now.nanos <= heard.nanos + silence@
            },
{
    let n = old(core)@;
    let servers = n.configurations.latest;
    let repl = ls@.repl;
    let lease = n.conf.leader_lease_timeout;
    if silence@ > 0 {
        let (p, i) = choose|p: int, i: int|
            #![trigger servers[p], repl[i]]
            0 <= p < servers.len() && 0 <= i < repl.len() && contacted(n, repl, servers[p], now)
                && servers[p].id != n.local_id && repl[i].peer.id == servers[p].id && span(
                repl[i].last_contact,
                now,
            ) == silence@;
        let j = choose|j: int|
            0 <= j < repl.len() && (#[trigger] repl[j]).peer.id == servers[p].id && span(
                repl[j].last_contact,
                now,
            ) <= lease;
        assert(repl[i].peer.id == repl[j].peer.id);
    }
    assert forall|p: int, i: int|
        #![trigger servers[p], repl[i]]
        0 <= p < servers.len() && 0 <= i < repl.len() && servers[p].suffrage
            == ServerSuffrage::Voter && servers[p].id != n.local_id && repl[i].peer.id
            == servers[p].id && now.nanos <= repl[i].last_contact.nanos + lease implies now.nanos
        <= repl[i].last_contact.nanos + silence@ by {
        assert(span(repl[i].last_contact, now) <= lease);
        assert(contacted(n, repl, servers[p], now));
    }
}

/// A snapshot is due exactly where at least as many entries as the threshold
/// says follow the last snapshot, whatever that is.
pub proof fn law_snapshot_is_due_past_the_threshold(core: &RaftCore, last_log: u64, due: bool)
    requires
        call_ensures(RaftCore::snapshot_is_due, (core, last_log), due),
    ensures
        due <==> last_log >= core@.shared.last_snapshot.0 + core@.conf.snapshot_threshold
            || core@.conf.snapshot_threshold == 0,
{
}

/// Whether to take a snapshot is decided by the end of the log as its store
/// tells it, and a store that cannot tell is not passed over.
pub proof fn law_growing_log_asks_for_a_snapshot<L: LogStore>(
    core: &RaftCore,
    logs: &L,
    r: Result<bool>,
)
    requires
        call_ensures(RaftCore::should_snapshot::<L>, (core, logs), r),
    ensures
        match r {
            Ok(due) => exists|last_log: u64| #[trigger]
                call_ensures(L::last_index, (logs,), Ok::<u64, RaftError>(last_log)) && (due
                    <==> last_log >= core@.shared.last_snapshot.0
                    + core@.conf.snapshot_threshold || core@.conf.snapshot_threshold == 0),
            Err(e) => call_ensures(L::last_index, (logs,), Err::<u64, RaftError>(e)),
        },
{
    if let Ok(due) = r {
        let last_log = choose|last_log: u64|
            call_ensures(L::last_index, (logs,), Ok::<u64, RaftError>(last_log)) && due
                == #[trigger] snapshot_due(
                last_log,
                core@.shared.last_snapshot.0,
                core@.conf.snapshot_threshold,
            );
        assert(call_ensures(L::last_index, (logs,), Ok::<u64, RaftError>(last_log)));
    }
}

/// An append request is accepted only where it is not of an older term and the
/// log holds the entry that it follows on; and where it is, it is refused only
/// because the log store failed.
pub proof fn law_append_is_accepted_where_the_log_fits<L: LogStore, S: StableStore>(
    core: &mut RaftCore,
    logs: &mut L,
    stable: &mut S,
    req: AppendEntriesRequest,
    decoded: &Vec<Option<Configuration>>,
    now: Instant,
    done: AppendResult,
)
    requires
        call_ensures(
            RaftCore::append_entries::<L, S>,
            (core, logs, stable, req, decoded, now),
            Ok::<AppendResult, Fatal>(done),
        ),
    ensures
        ({
            let n = old(core)@;
            let own = if n.shared.last_log.0 >= n.shared.last_snapshot.0 {
                n.shared.last_log
            } else {
                n.shared.last_snapshot
            };
            let fits = if req.prev_log_entry == 0 {
                true
            } else if req.prev_log_entry == own.0 {
                req.prev_log_term == own.1
            } else {
                old(logs).entries().contains_key(req.prev_log_entry)
                    && old(logs).entries()[req.prev_log_entry].term == req.prev_log_term
            };
            &&& done.response.success ==> req.term >= n.shared.current_term && fits
            &&& req.term >= n.shared.current_term && fits && !done.response.success
                ==> refused_by_store(*old(logs), n.shared.last_log.0, req, done.outcome) && (
            done.outcome is PreviousUnread || done.outcome is Refused)
            &&& !done.response.success ==> final(core)@.shared.last_log == n.shared.last_log
                && final(core)@.shared.last_contact == n.shared.last_contact
            &&& done.response.success ==> final(core)@.shared.last_contact == Some(now)
            &&& done.response.last_log == own.0
            &&& done.response.success ==> !done.response.no_retry_backoff
            &&& req.term < n.shared.current_term ==> !done.response.no_retry_backoff
            &&& req.term >= n.shared.current_term && !fits ==> done.response.no_retry_backoff
            &&& done.response.header.id@ == n.local_id
            &&& done.response.header.addr@ == n.local_addr
        }),
{
    lemma_appending_keeps_progress(old(core)@, old(logs).entries(), req, decoded, done.outcome);
}

/// After an accepted request the log holds, for each entry that was sent, one
/// of that index and term, and the entry itself where none was there.
pub proof fn law_sent_entries_are_in_the_log<L: LogStore, S: StableStore>(
    core: &mut RaftCore,
    logs: &mut L,
    stable: &mut S,
    req: AppendEntriesRequest,
    decoded: &Vec<Option<Configuration>>,
    now: Instant,
    done: AppendResult,
    j: int,
)
    requires
        call_ensures(
            RaftCore::append_entries::<L, S>,
            (core, logs, stable, req, decoded, now),
            Ok::<AppendResult, Fatal>(done),
        ),
        done.response.success,
        old(logs).settled(),
        forall|a: int, b: int|
            0 <= a < b < req.entries@.len() ==> (#[trigger] req.entries@[a]).index < (
            #[trigger] req.entries@[b]).index,
        0 <= j < req.entries@.len(),
    ensures
        final(logs).settled(),
        ({
            let sent = req.entries@[j];
            let before = old(logs).entries();
            let after = final(logs).entries();
            &&& after.contains_key(sent.index)
            &&& after[sent.index].term == sent.term
            &&& !before.contains_key(sent.index) || before[sent.index].term != sent.term
                ==> after[sent.index] == sent@
        }),
{
    let views = log_views(req.entries@);
    let stored = old(logs).entries();
    let last_log = old(core)@.shared.last_log.0;
    let k = done.outcome->Appended_0 as int;
    assert forall|a: int, b: int| 0 <= a < b < views.len() implies (#[trigger] views[a]).index < (
    #[trigger] views[b]).index by {
        assert(req.entries@[a].index < req.entries@[b].index);
    }
    assert(views[j] == req.entries@[j]@);
    law_accepted_entries_are_held(stored, last_log, views, k, j);
    if j < k {
        assert(held(stored, last_log, views[j]));
    }
}

/// What lies before all entries that were sent is as it was.
pub proof fn law_entries_before_those_sent_stay<L: LogStore, S: StableStore>(
    core: &mut RaftCore,
    logs: &mut L,
    stable: &mut S,
    req: AppendEntriesRequest,
    decoded: &Vec<Option<Configuration>>,
    now: Instant,
    done: AppendResult,
    index: u64,
)
    requires
        call_ensures(
            RaftCore::append_entries::<L, S>,
            (core, logs, stable, req, decoded, now),
            Ok::<AppendResult, Fatal>(done),
        ),
        done.response.success,
        old(logs).settled(),
        forall|a: int, b: int|
            0 <= a < b < req.entries@.len() ==> (#[trigger] req.entries@[a]).index < (
            #[trigger] req.entries@[b]).index,
        req.entries@.len() > 0 ==> index < req.entries@[0].index,
    ensures
        final(logs).entries().contains_key(index) == old(logs).entries().contains_key(index),
        old(logs).entries().contains_key(index)
            ==> final(logs).entries()[index] == old(logs).entries()[index],
{
    let views = log_views(req.entries@);
    let stored = old(logs).entries();
    let k = done.outcome->Appended_0 as int;
    assert forall|a: int, b: int| 0 <= a < b < views.len() implies (#[trigger] views[a]).index < (
    #[trigger] views[b]).index by {
        assert(req.entries@[a].index < req.entries@[b].index);
    }
    if views.len() > 0 {
        assert(views[0] == req.entries@[0]@);
        if 0 < k < views.len() {
            assert(views[0].index < views[k].index);
        }
    }
    law_earlier_entries_are_kept(stored, old(core)@.shared.last_log.0, views, k, index);
}

/// Nothing is removed without a conflict: where each entry that was sent is
/// beyond the end of the log or in it already, an accepted request only adds.
pub proof fn law_nothing_is_removed_without_a_conflict<L: LogStore, S: StableStore>(
    core: &mut RaftCore,
    logs: &mut L,
    stable: &mut S,
    req: AppendEntriesRequest,
    decoded: &Vec<Option<Configuration>>,
    now: Instant,
    done: AppendResult,
    index: u64,
)
    requires
        call_ensures(
            RaftCore::append_entries::<L, S>,
            (core, logs, stable, req, decoded, now),
            Ok::<AppendResult, Fatal>(done),
        ),
        done.response.success,
        old(logs).settled(),
        forall|a: int, b: int|
            0 <= a < b < req.entries@.len() ==> (#[trigger] req.entries@[a]).index < (
            #[trigger] req.entries@[b]).index,
        forall|a: int|
            0 <= a < req.entries@.len() && (#[trigger] req.entries@[a]).index
                <= old(core)@.shared.last_log.0
                ==> old(logs).entries().contains_key(req.entries@[a].index)
                && old(logs).entries()[req.entries@[a].index].term == req.entries@[a].term,
        old(logs).entries().contains_key(index),
        index <= old(core)@.shared.last_log.0,
    ensures
        final(logs).entries().contains_key(index),
        final(logs).entries()[index] == old(logs).entries()[index],
{
    let views = log_views(req.entries@);
    let stored = old(logs).entries();
    let last_log = old(core)@.shared.last_log.0;
    let k = done.outcome->Appended_0 as int;
    if k < views.len() {
        assert(views[k] == req.entries@[k]@);
        let new = views.skip(k);
        assert forall|i: int| 0 <= i < new.len() implies (#[trigger] new[i]).index != index by {
            assert(views[k + i] == req.entries@[k + i]@);
            if i > 0 {
                assert(req.entries@[k].index < req.entries@[k + i].index);
            }
        }
        law_other_indexes_keep_their_logs(stored, new, index);
    }
}

/// A conflict clears the way: where an entry that was sent contradicts one of
/// the log, and those before it are in the log, everything from it to the end
/// of the log that was not sent is gone after an accepted request.
pub proof fn law_conflicting_suffix_is_removed<L: LogStore, S: StableStore>(
    core: &mut RaftCore,
    logs: &mut L,
    stable: &mut S,
    req: AppendEntriesRequest,
    decoded: &Vec<Option<Configuration>>,
    now: Instant,
    done: AppendResult,
    c: int,
    index: u64,
)
    requires
        call_ensures(
            RaftCore::append_entries::<L, S>,
            (core, logs, stable, req, decoded, now),
            Ok::<AppendResult, Fatal>(done),
        ),
        done.response.success,
        old(logs).settled(),
        0 <= c < req.entries@.len(),
        forall|a: int|
            0 <= a < c ==> (#[trigger] req.entries@[a]).index <= old(core)@.shared.last_log.0
                && old(logs).entries().contains_key(req.entries@[a].index)
                    && old(logs).entries()[req.entries@[a].index].term == req.entries@[a].term,
        req.entries@[c].index <= old(core)@.shared.last_log.0,
        old(logs).entries().contains_key(req.entries@[c].index),
        old(logs).entries()[req.entries@[c].index].term != req.entries@[c].term,
        req.entries@[c].index <= index <= old(core)@.shared.last_log.0,
        forall|a: int| 0 <= a < req.entries@.len() ==> (#[trigger] req.entries@[a]).index != index,
    ensures
        !final(logs).entries().contains_key(index),
{
    let views = log_views(req.entries@);
    let stored = old(logs).entries();
    let last_log = old(core)@.shared.last_log.0;
    let k = done.outcome->Appended_0 as int;
    assert(views[c] == req.entries@[c]@);
    assert(!held(stored, last_log, views[c]));
    if k < c {
        assert(views[k] == req.entries@[k]@);
        assert(held(stored, last_log, views[k]));
    }
    assert(k == c);
    let new = views.skip(k);
    let base = without_range(stored, views[k].index, last_log);
    assert forall|i: int| 0 <= i < new.len() implies (#[trigger] new[i]).index != index by {
        assert(views[k + i] == req.entries@[k + i]@);
    }
    law_other_indexes_keep_their_logs(base, new, index);
}

/// The last configuration among new entries is the latest one.
pub proof fn lemma_last_configuration_counts(
    n: NodeView,
    entries: Seq<LogView>,
    decoded: Seq<Option<Seq<ServerView>>>,
    j: int,
)
    requires
        entries.len() == decoded.len(),
        0 <= j < entries.len(),
        entries[j].log_type == LogType::Configuration,
        decoded[j] is Some,
        forall|a: int|
            j < a < entries.len() ==> (#[trigger] entries[a]).log_type != LogType::Configuration,
    ensures
        with_log_entries(n, entries, decoded).configurations.latest == decoded[j]->Some_0,
        with_log_entries(n, entries, decoded).configurations.latest_index == entries[j].index,
        with_log_entries(n, entries, decoded).readable == decoded[j]->Some_0,
    decreases entries.len(),
{
    if j < entries.len() - 1 {
        let front = entries.drop_last();
        assert(entries[entries.len() - 1].log_type != LogType::Configuration);
        assert forall|a: int| j < a < front.len() implies (#[trigger] front[a]).log_type
            != LogType::Configuration by {
            assert(entries[a].log_type != LogType::Configuration);
        }
        lemma_last_configuration_counts(n, front, decoded.drop_last(), j);
    }
}

proof fn lemma_no_configuration_changes_nothing(
    n: NodeView,
    entries: Seq<LogView>,
    decoded: Seq<Option<Seq<ServerView>>>,
)
    requires
        forall|a: int|
            0 <= a < entries.len() ==> (#[trigger] entries[a]).log_type != LogType::Configuration,
    ensures
        with_log_entries(n, entries, decoded) == n,
    decreases entries.len(),
{
    if entries.len() > 0 {
        let front = entries.drop_last();
        assert(entries[entries.len() - 1].log_type != LogType::Configuration);
        assert forall|a: int| 0 <= a < front.len() implies (#[trigger] front[a]).log_type
            != LogType::Configuration by {
            assert(entries[a].log_type != LogType::Configuration);
        }
        lemma_no_configuration_changes_nothing(n, front, decoded.drop_last());
    }
}

/// A membership is in use as soon as it is in the log: the last one among the
/// entries that are new is the node's latest, at the entry's index.
pub proof fn law_membership_is_used_once_stored<L: LogStore, S: StableStore>(
    core: &mut RaftCore,
    logs: &mut L,
    stable: &mut S,
    req: AppendEntriesRequest,
    decoded: &Vec<Option<Configuration>>,
    now: Instant,
    done: AppendResult,
    j: int,
)
    requires
        call_ensures(
            RaftCore::append_entries::<L, S>,
            (core, logs, stable, req, decoded, now),
            Ok::<AppendResult, Fatal>(done),
        ),
        decoded@.len() == req.entries@.len(),
        done.response.success,
        0 <= j < req.entries@.len(),
        req.entries@[j].index > old(core)@.shared.last_log.0,
        req.entries@[j].log_type == LogType::Configuration,
        decoded@[j] is Some,
        forall|a: int|
            j < a < req.entries@.len() ==> (#[trigger] req.entries@[a]).log_type
                != LogType::Configuration,
    ensures
        final(core)@.configurations.latest == decoded@[j]->Some_0@,
        final(core)@.configurations.latest_index == req.entries@[j].index,
        final(core)@.readable == decoded@[j]->Some_0@,
{
    let n = old(core)@;
    let f = followed(n, req.term, req.header.addr@, req.header.id@);
    let views = log_views(req.entries@);
    let given = decoded_views(decoded@);
    let stored = old(logs).entries();
    let k = done.outcome->Appended_0 as int;
    assert(views[j] == req.entries@[j]@);
    if k > j {
        assert(held(stored, n.shared.last_log.0, views[j]));
    }
    let m = if conflicts_at(stored, f.shared.last_log.0, views, k) {
        rolled_back(f, views[k].index)
    } else {
        f
    };
    let new = views.skip(k);
    assert(new[j - k] == views[j]);
    assert(given.skip(k)[j - k] == Some(decoded@[j]->Some_0@));
    assert forall|a: int| j - k < a < new.len() implies (#[trigger] new[a]).log_type
        != LogType::Configuration by {
        assert(views[k + a] == req.entries@[k + a]@);
    }
    lemma_last_configuration_counts(m, new, given.skip(k), j - k);
}

/// A membership that is removed with a conflicting suffix gives way to the
/// committed one, where no other comes with the new entries.
pub proof fn law_removed_membership_gives_way<L: LogStore, S: StableStore>(
    core: &mut RaftCore,
    logs: &mut L,
    stable: &mut S,
    req: AppendEntriesRequest,
    decoded: &Vec<Option<Configuration>>,
    now: Instant,
    done: AppendResult,
)
    requires
        call_ensures(
            RaftCore::append_entries::<L, S>,
            (core, logs, stable, req, decoded, now),
            Ok::<AppendResult, Fatal>(done),
        ),
        done.response.success,
        req.entries@.len() > 0,
        req.entries@[0].index <= old(core)@.shared.last_log.0,
        old(logs).entries().contains_key(req.entries@[0].index),
        old(logs).entries()[req.entries@[0].index].term != req.entries@[0].term,
        forall|a: int|
            0 <= a < req.entries@.len() ==> (#[trigger] req.entries@[a]).log_type
                != LogType::Configuration,
    ensures
        final(core)@.configurations.latest == if req.entries@[0].index
            <= old(core)@.configurations.latest_index {
            old(core)@.configurations.committed
        } else {
            old(core)@.configurations.latest
        },
        req.entries@[0].index > old(core)@.configurations.latest_index
            ==> final(core)@.configurations.latest_index == old(core)@.configurations.latest_index,
{
    let n = old(core)@;
    let f = followed(n, req.term, req.header.addr@, req.header.id@);
    let views = log_views(req.entries@);
    let stored = old(logs).entries();
    let k = done.outcome->Appended_0 as int;
    assert(views[0] == req.entries@[0]@);
    assert(!held(stored, n.shared.last_log.0, views[0]));
    assert(k == 0);
    let new = views.skip(k);
    assert forall|a: int| 0 <= a < new.len() implies (#[trigger] new[a]).log_type
        != LogType::Configuration by {
        assert(views[k + a] == req.entries@[k + a]@);
    }
    lemma_no_configuration_changes_nothing(
        rolled_back(f, views[k].index),
        new,
        decoded_views(decoded@).skip(k),
    );
}

/// What a follower knows to be committed includes the membership: once the
/// commit index reaches the latest membership, that is the committed one; until
/// then the committed one stays.
pub proof fn law_membership_commits_with_its_entry<L: LogStore, S: StableStore>(
    core: &mut RaftCore,
    logs: &mut L,
    stable: &mut S,
    req: AppendEntriesRequest,
    decoded: &Vec<Option<Configuration>>,
    now: Instant,
    done: AppendResult,
)
    requires
        call_ensures(
            RaftCore::append_entries::<L, S>,
            (core, logs, stable, req, decoded, now),
            Ok::<AppendResult, Fatal>(done),
        ),
        done.response.success,
        req.entries@.len() == 0,
    ensures
        ({
            let before = old(core)@.configurations;
            let after = final(core)@.configurations;
            let advances = req.leader_commit_index > old(core)@.shared.commit_index;
            &&& after.latest == before.latest && after.latest_index == before.latest_index
            &&& advances && before.latest_index <= final(core)@.shared.commit_index
                ==> after.committed == before.latest && after.committed_index
                == before.latest_index
            &&& !advances || before.latest_index > final(core)@.shared.commit_index
                ==> after.committed == before.committed && after.committed_index
                == before.committed_index
        }),
{
}

/// A node follows whom it is told to follow, in that term: it becomes a
/// follower where the term is newer, and where it stood itself without being
/// told to; otherwise role and term stay.
pub proof fn law_leaders_are_followed<S: StableStore>(
    core: &mut RaftCore,
    stable: &mut S,
    term: u64,
    addr: String,
    id: String,
)
    requires
        call_ensures(
            RaftCore::follow::<S>,
            (core, stable, term, addr, id),
            Ok::<(), Fatal>(()),
        ),
    ensures
        ({
            let n = old(core)@;
            let after = final(core)@;
            &&& after.leader_addr == addr@
            &&& after.leader_id == id@
            &&& n.shared.state != RaftState::Follower && !n.from_transfer
                ==> after.shared.state == RaftState::Follower && after.shared.current_term == term
            &&& term > n.shared.current_term ==> after.shared.state == RaftState::Follower
                && after.shared.current_term == term
            &&& term <= n.shared.current_term && (n.shared.state == RaftState::Follower
                || n.from_transfer) ==> after.shared == n.shared
            &&& after.configurations == n.configurations
            &&& after.shared.commit_index == n.shared.commit_index
            &&& after.shared.last_log == n.shared.last_log
        }),
{
}

} // verus!
