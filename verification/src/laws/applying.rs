//! In which order, and how often, committed entries reach the state machine.

use crate::append::AppendResult;
use crate::apply::{
    answered_between, commit_at, commit_views, commits_between, flattened,
    law_committed_entries_are_handed_over, respond_batch_shutdown, waiting_tickets, Applying,
    CommitTuple, CommitView, LogFuture,
};
use crate::configuration::Configuration;
use crate::laws::following::{lemma_appending_keeps_progress, lemma_handed_over_comes_from_between};
use crate::leader::{by_index, committed_prefix, Committed, LeaderState};
use crate::log::{LogStore, LogType, LogView};
use crate::raft::{Fatal, RaftCore};
use crate::stable::StableStore;
use crate::time::Instant;
use crate::transport::AppendEntriesRequest;
use std::collections::HashMap;
use vstd::prelude::*;

verus! {

/// Where an entry of a batch stands among those of all batches.
proof fn lemma_place_of(batches: Seq<Vec<CommitTuple>>, b: int, k: int)
    requires
        0 <= b < batches.len(),
        0 <= k < batches[b]@.len(),
    ensures
        flattened(batches.take(b)).len() + k < flattened(batches).len(),
        flattened(batches)[flattened(batches.take(b)).len() + k] == batches[b]@[k]@,
        flattened(batches.take(b)).len() + batches[b]@.len()
            == flattened(batches.take(b + 1)).len(),
    decreases batches.len(),
{
    let front = batches.drop_last();
    assert(batches.take(b + 1).drop_last() =~= batches.take(b));
    if b == batches.len() - 1 {
        assert(batches.take(b) =~= front);
        assert(batches.take(b + 1) =~= batches);
    } else {
        assert(front[b] == batches[b]);
        assert(front.take(b) =~= batches.take(b));
        lemma_place_of(front, b, k);
    }
}

proof fn lemma_places_grow(batches: Seq<Vec<CommitTuple>>, a: int, b: int)
    requires
        0 <= a <= b <= batches.len(),
    ensures
        flattened(batches.take(a)).len() <= flattened(batches.take(b)).len(),
    decreases b,
{
    if a < b {
        assert(batches.take(b).drop_last() =~= batches.take(b - 1));
        lemma_places_grow(batches, a, b - 1);
    }
}

/// Every entry among those of all batches stands in one of them.
proof fn lemma_has_a_batch(batches: Seq<Vec<CommitTuple>>, i: int)
    requires
        0 <= i < flattened(batches).len(),
    ensures
        exists|b: int, k: int|
            0 <= b < batches.len() && 0 <= k < batches[b]@.len() && #[trigger] batches[b]@[k]@
                == flattened(batches)[i],
    decreases batches.len(),
{
    let front = batches.drop_last();
    if i < flattened(front).len() {
        lemma_has_a_batch(front, i);
        let (b, k) = choose|b: int, k: int|
            0 <= b < front.len() && 0 <= k < front[b]@.len() && #[trigger] front[b]@[k]@
                == flattened(front)[i];
        assert(batches[b]@[k]@ == flattened(batches)[i]);
    } else {
        let b = batches.len() - 1;
        let k = i - flattened(front).len();
        assert(commit_views(batches[b]@)[k] == batches[b]@[k]@);
    }
}

proof fn lemma_handed_over_in_order(
    futures: Map<u64, LogFuture>,
    entries: Map<u64, LogView>,
    from: u64,
    to: u64,
    i: int,
    j: int,
)
    requires
        forall|x: u64|
            from < x <= to ==> (#[trigger] commit_at(futures, entries, x)).log.index == x,
        0 <= i < j < commits_between(futures, entries, from, to).len(),
    ensures
        commits_between(futures, entries, from, to)[i].log.index < commits_between(
            futures,
            entries,
            from,
            to,
        )[j].log.index,
    decreases to,
{
    let before = commits_between(futures, entries, from, (to - 1) as u64);
    let all = commits_between(futures, entries, from, to);
    if j < before.len() {
        lemma_handed_over_in_order(futures, entries, from, (to - 1) as u64, i, j);
    } else {
        lemma_handed_over_comes_from_between(futures, entries, from, (to - 1) as u64, i);
        assert(all[j] == commit_at(futures, entries, to));
        assert(all[i] == before[i]);
    }
}

/// A follower hands over what is committed in the order of the log.
pub proof fn law_follower_applies_in_order<L: LogStore, S: StableStore>(
    core: &mut RaftCore,
    logs: &mut L,
    stable: &mut S,
    req: AppendEntriesRequest,
    decoded: &Vec<Option<Configuration>>,
    now: Instant,
    done: AppendResult,
    b: int,
    k: int,
    c: int,
    m: int,
)
    requires
        call_ensures(
            RaftCore::append_entries::<L, S>,
            (core, logs, stable, req, decoded, now),
            Ok::<AppendResult, Fatal>(done),
        ),
        forall|i: u64| #[trigger]
            final(logs).entries().contains_key(i) ==> final(logs).entries()[i].index == i,
        0 <= b < done.applying.batches@.len(),
        0 <= k < done.applying.batches@[b]@.len(),
        0 <= c < done.applying.batches@.len(),
        0 <= m < done.applying.batches@[c]@.len(),
        b < c || (b == c && k < m),
    ensures
        done.applying.batches@[b]@[k].log.index < done.applying.batches@[c]@[m].log.index,
{
    let batches = done.applying.batches@;
    let from = old(core)@.shared.last_applied;
    let to = final(core)@.shared.commit_index;
    let stored = final(logs).entries();
    let none = Map::<u64, LogFuture>::empty();
    lemma_appending_keeps_progress(old(core)@, old(logs).entries(), req, decoded, done.outcome);
    lemma_place_of(batches, b, k);
    lemma_place_of(batches, c, m);
    if b < c {
        lemma_places_grow(batches, b + 1, c);
    }
    assert(flattened(batches) == commits_between(none, stored, from, to));
    assert forall|x: u64| from < x <= to implies (#[trigger] commit_at(none, stored, x)).log.index
        == x by {
        assert(stored.contains_key(x));
    }
    lemma_handed_over_in_order(
        none,
        stored,
        from,
        to,
        flattened(batches.take(b)).len() + k,
        flattened(batches.take(c)).len() + m,
    );
}

/// A follower leaves nothing out: every entry that becomes committed, and was
/// not applied before, is handed over unless it is a no-op.
pub proof fn law_follower_applies_all_that_is_committed<L: LogStore, S: StableStore>(
    core: &mut RaftCore,
    logs: &mut L,
    stable: &mut S,
    req: AppendEntriesRequest,
    decoded: &Vec<Option<Configuration>>,
    now: Instant,
    done: AppendResult,
    index: u64,
)
    requires
        call_ensures(
            RaftCore::append_entries::<L, S>,
            (core, logs, stable, req, decoded, now),
            Ok::<AppendResult, Fatal>(done),
        ),
        done.response.success,
        req.leader_commit_index > old(core)@.shared.commit_index,
        old(core)@.shared.last_applied < index <= final(core)@.shared.commit_index,
        final(logs).entries()[index].log_type != LogType::Noop,
    ensures
        final(logs).entries().contains_key(index),
        exists|b: int, k: int|
            0 <= b < done.applying.batches@.len() && 0 <= k < done.applying.batches@[b]@.len()
                && #[trigger] done.applying.batches@[b]@[k]@.log == final(logs).entries()[index],
{
    let batches = done.applying.batches@;
    let from = old(core)@.shared.last_applied;
    let to = final(core)@.shared.commit_index;
    let stored = final(logs).entries();
    let none = Map::<u64, LogFuture>::empty();
    lemma_appending_keeps_progress(old(core)@, old(logs).entries(), req, decoded, done.outcome);
    assert(flattened(batches) == commits_between(none, stored, from, to));
    law_committed_entries_are_handed_over(none, stored, from, to, index);
    let i = choose|i: int|
        0 <= i < flattened(batches).len() && flattened(batches)[i] == commit_at(
            none,
            stored,
            index,
        );
    lemma_has_a_batch(batches, i);
    assert(stored.contains_key(index));
}

proof fn lemma_by_index(futures: Seq<LogFuture>, i: int)
    requires
        0 <= i < futures.len(),
        forall|a: int, b: int|
            0 <= a < b < futures.len() ==> (#[trigger] futures[a]).log.index < (
            #[trigger] futures[b]).log.index,
    ensures
        by_index(futures).contains_key(futures[i].log.index),
        by_index(futures)[futures[i].log.index] == futures[i],
    decreases futures.len(),
{
    if i < futures.len() - 1 {
        let front = futures.drop_last();
        assert(front[i] == futures[i]);
        assert(futures[i].log.index < futures[futures.len() - 1].log.index);
        assert forall|a: int, b: int| 0 <= a < b < front.len() implies (
        #[trigger] front[a]).log.index < (#[trigger] front[b]).log.index by {
            assert(futures[a].log.index < futures[b].log.index);
        }
        lemma_by_index(front, i);
    }
}

proof fn lemma_indexed_by_their_index(futures: Seq<LogFuture>, index: u64)
    requires
        by_index(futures).contains_key(index),
    ensures
        by_index(futures)[index].log.index == index,
    decreases futures.len(),
{
    if futures.len() > 0 && index != futures.last().log.index {
        lemma_indexed_by_their_index(futures.drop_last(), index);
    }
}

/// Whoever waits for an entry that becomes committed gets it applied: a leader
/// hands over each of its entries in flight up to the commit index, with the
/// ticket, unless it is a no-op.
pub proof fn law_leader_applies_what_clients_wait_for<L: LogStore>(
    core: &mut RaftCore,
    ls: &mut LeaderState,
    logs: &L,
    done: Committed,
    i: int,
)
    requires
        call_ensures(
            RaftCore::commit_advanced::<L>,
            (core, ls, logs),
            Ok::<Committed, Fatal>(done),
        ),
        forall|a: int, b: int|
            0 <= a < b < old(ls).inflight@.len() ==> (#[trigger] old(ls).inflight@[a]).log.index < (
            #[trigger] old(ls).inflight@[b]).log.index,
        0 <= i < old(ls).inflight@.len(),
        old(core)@.shared.last_applied < old(ls).inflight@[i].log.index,
        old(ls).inflight@[i].log.index <= old(ls)@.commitment.commit_index,
        old(ls).inflight@[i].log.log_type != LogType::Noop,
    ensures
        exists|b: int, k: int|
            0 <= b < done.applying.batches@.len() && 0 <= k < done.applying.batches@[b]@.len()
                && #[trigger] done.applying.batches@[b]@[k]@ == (CommitView {
                log: old(ls).inflight@[i].log@,
                ticket: old(ls).inflight@[i].ticket,
            }),
{
    let all = old(ls).inflight@;
    let views = old(ls)@.inflight;
    let commit = old(ls)@.commitment.commit_index;
    let kept = committed_prefix(views, commit) as int;
    crate::laws::leading::lemma_committed_prefix(views, commit);
    assert(views[i] == all[i]@);
    if i >= kept {
        assert(views[kept] == all[kept]@);
        if kept < i {
            assert(all[kept].log.index < all[i].log.index);
        }
    }
    let taken = all.take(kept);
    assert(taken[i] == all[i]);
    assert forall|a: int, b: int| 0 <= a < b < taken.len() implies (
    #[trigger] taken[a]).log.index < (#[trigger] taken[b]).log.index by {
        assert(all[a].log.index < all[b].log.index);
    }
    lemma_by_index(taken, i);
    let group = by_index(taken);
    let from = old(core)@.shared.last_applied;
    let to = views[kept - 1].log.index;
    assert(views[kept - 1] == all[kept - 1]@);
    if i < kept - 1 {
        assert(all[i].log.index < all[kept - 1].log.index);
    }
    let index = all[i].log.index;
    let batches = done.applying.batches@;
    assert(flattened(batches) == commits_between(group, logs.entries(), from, to));
    law_committed_entries_are_handed_over(group, logs.entries(), from, to, index);
    let f = choose|f: int|
        0 <= f < flattened(batches).len() && flattened(batches)[f] == commit_at(
            group,
            logs.entries(),
            index,
        );
    lemma_has_a_batch(batches, f);
}

/// A leader hands over nothing that is not committed and nothing twice: what
/// it hands over comes after what it applied before.
pub proof fn law_leader_applies_only_what_is_committed<L: LogStore>(
    core: &mut RaftCore,
    ls: &mut LeaderState,
    logs: &L,
    done: Committed,
    b: int,
    k: int,
)
    requires
        call_ensures(
            RaftCore::commit_advanced::<L>,
            (core, ls, logs),
            Ok::<Committed, Fatal>(done),
        ),
        forall|i: u64| #[trigger]
            logs.entries().contains_key(i) ==> logs.entries()[i].index == i,
        0 <= b < done.applying.batches@.len(),
        0 <= k < done.applying.batches@[b]@.len(),
    ensures
        ({
            let entry = done.applying.batches@[b]@[k].log;
            &&& old(core)@.shared.last_applied < entry.index <= old(ls)@.commitment.commit_index
            &&& entry.index <= final(core)@.shared.last_applied
            &&& entry.log_type != LogType::Noop
        }),
{
    let batches = done.applying.batches@;
    let views = old(ls)@.inflight;
    let commit = old(ls)@.commitment.commit_index;
    let kept = committed_prefix(views, commit) as int;
    crate::laws::leading::lemma_committed_prefix(views, commit);
    let group = by_index(old(ls).inflight@.take(kept));
    let from = old(core)@.shared.last_applied;
    let to = views[kept - 1].log.index;
    lemma_place_of(batches, b, k);
    let at = flattened(batches.take(b)).len() + k;
    assert(flattened(batches) == commits_between(group, logs.entries(), from, to));
    lemma_handed_over_comes_from_between(group, logs.entries(), from, to, at);
    let index = choose|index: u64|
        from < index <= to && commits_between(group, logs.entries(), from, to)[at]
            == #[trigger] commit_at(group, logs.entries(), index);
    assert(views[kept - 1].log.index <= commit);
    assert(group.contains_key(index) || logs.entries().contains_key(index));
    if group.contains_key(index) {
        lemma_indexed_by_their_index(old(ls).inflight@.take(kept), index);
    }
}

proof fn lemma_no_ops_are_answered(
    futures: Map<u64, LogFuture>,
    entries: Map<u64, LogView>,
    from: u64,
    to: u64,
    index: u64,
)
    requires
        from < index <= to,
        commit_at(futures, entries, index).log.log_type == LogType::Noop,
        commit_at(futures, entries, index).ticket is Some,
    ensures
        answered_between(futures, entries, from, to).contains(
            (
                commit_at(futures, entries, index).ticket->Some_0,
                commit_at(futures, entries, index).log.index,
            ),
        ),
    decreases to,
{
    let before = answered_between(futures, entries, from, (to - 1) as u64);
    let all = answered_between(futures, entries, from, to);
    let c = commit_at(futures, entries, index);
    let answer = (c.ticket->Some_0, c.log.index);
    if index == to {
        assert(all[before.len() as int] == answer);
    } else {
        lemma_no_ops_are_answered(futures, entries, from, (to - 1) as u64, index);
        let i = choose|i: int| 0 <= i < before.len() && before[i] == answer;
        assert(all[i] == answer);
    }
}

/// Whoever waits for a no-op that becomes committed is told of it, with its
/// index.
pub proof fn law_leader_answers_no_ops<L: LogStore>(
    core: &mut RaftCore,
    ls: &mut LeaderState,
    logs: &L,
    done: Committed,
    i: int,
)
    requires
        call_ensures(
            RaftCore::commit_advanced::<L>,
            (core, ls, logs),
            Ok::<Committed, Fatal>(done),
        ),
        forall|a: int, b: int|
            0 <= a < b < old(ls).inflight@.len() ==> (#[trigger] old(ls).inflight@[a]).log.index < (
            #[trigger] old(ls).inflight@[b]).log.index,
        0 <= i < old(ls).inflight@.len(),
        old(core)@.shared.last_applied < old(ls).inflight@[i].log.index,
        old(ls).inflight@[i].log.index <= old(ls)@.commitment.commit_index,
        old(ls).inflight@[i].log.log_type == LogType::Noop,
        old(ls).inflight@[i].ticket is Some,
    ensures
        done.applying.answered@.contains(
            (old(ls).inflight@[i].ticket->Some_0, old(ls).inflight@[i].log.index),
        ),
{
    let all = old(ls).inflight@;
    let views = old(ls)@.inflight;
    let commit = old(ls)@.commitment.commit_index;
    let kept = committed_prefix(views, commit) as int;
    crate::laws::leading::lemma_committed_prefix(views, commit);
    assert(views[i] == all[i]@);
    if i >= kept {
        assert(views[kept] == all[kept]@);
        if kept < i {
            assert(all[kept].log.index < all[i].log.index);
        }
    }
    let taken = all.take(kept);
    assert(taken[i] == all[i]);
    assert forall|a: int, b: int| 0 <= a < b < taken.len() implies (
    #[trigger] taken[a]).log.index < (#[trigger] taken[b]).log.index by {
        assert(all[a].log.index < all[b].log.index);
    }
    lemma_by_index(taken, i);
    assert(views[kept - 1] == all[kept - 1]@);
    if i < kept - 1 {
        assert(all[i].log.index < all[kept - 1].log.index);
    }
    lemma_no_ops_are_answered(
        by_index(taken),
        logs.entries(),
        old(core)@.shared.last_applied,
        views[kept - 1].log.index,
        all[i].log.index,
    );
}

/// Application goes on to the index that was reached, and nothing goes back;
/// what is handed over comes in batches that are full but for the last.
pub proof fn law_application_reaches_the_index<L: LogStore>(
    core: &mut RaftCore,
    logs: &L,
    index: u64,
    futures: HashMap<u64, LogFuture>,
    a: Applying,
    b: int,
)
    requires
        call_ensures(
            RaftCore::process_logs::<L>,
            (core, logs, index, futures),
            Ok::<Applying, Fatal>(a),
        ),
    ensures
        ({
            let n = old(core)@;
            let after = final(core)@;
            &&& after.shared.last_applied == if index > n.shared.last_applied {
                index
            } else {
                n.shared.last_applied
            }
            &&& after.shared.commit_index == n.shared.commit_index
            &&& after.shared.current_term == n.shared.current_term
            &&& after.shared.state == n.shared.state
            &&& after.shared.last_log == n.shared.last_log
            &&& after.configurations == n.configurations
            &&& 0 <= b < a.batches@.len() ==> a.batches@[b]@.len() > 0
            &&& 0 <= b < a.batches@.len() - 1 && n.conf.max_append_entries > 0
                ==> a.batches@[b]@.len() == n.conf.max_append_entries
        }),
{
}

/// Each waiting client of a batch is among those that are told, and nobody
/// else is.
pub proof fn lemma_waiting_clients(batch: Seq<CommitView>, ticket: u64)
    ensures
        waiting_tickets(batch).contains(ticket) <==> exists|i: int|
            0 <= i < batch.len() && (#[trigger] batch[i]).ticket == Some(ticket),
    decreases batch.len(),
{
    if batch.len() > 0 {
        let front = batch.drop_last();
        let before = waiting_tickets(front);
        lemma_waiting_clients(front, ticket);
        if before.contains(ticket) {
            let i = choose|i: int| 0 <= i < front.len()
                && (#[trigger] front[i]).ticket == Some(ticket);
            assert(batch[i].ticket == Some(ticket));
            let p = choose|p: int| 0 <= p < before.len() && before[p] == ticket;
            assert(waiting_tickets(batch)[p] == ticket);
        }
        if batch.last().ticket == Some(ticket) {
            assert(waiting_tickets(batch)[before.len() as int] == ticket);
            assert(batch[batch.len() - 1].ticket == Some(ticket));
        }
        if exists|i: int| 0 <= i < batch.len() && (#[trigger] batch[i]).ticket == Some(ticket) {
            let i = choose|i: int| 0 <= i < batch.len()
                && (#[trigger] batch[i]).ticket == Some(ticket);
            if i < front.len() {
                assert(front[i].ticket == Some(ticket));
            }
        }
        if waiting_tickets(batch).contains(ticket) && !before.contains(ticket) {
            let p = choose|p: int|
                0 <= p < waiting_tickets(batch).len() && waiting_tickets(batch)[p] == ticket;
            if p < before.len() {
                assert(before[p] == ticket);
            }
        }
    }
}

/// Every client that waits for an entry of a batch is told that the node shut
/// down, and nobody else is.
pub proof fn law_waiting_clients_are_told_of_a_shutdown(
    batch: &Vec<CommitTuple>,
    told: Vec<u64>,
    ticket: u64,
)
    requires
        call_ensures(respond_batch_shutdown, (batch,), told),
    ensures
        told@.contains(ticket) <==> exists|i: int|
            0 <= i < batch@.len() && (#[trigger] batch@[i]).ticket == Some(ticket),
{
    let views = commit_views(batch@);
    lemma_waiting_clients(views, ticket);
    if exists|i: int| 0 <= i < batch@.len() && (#[trigger] batch@[i]).ticket == Some(ticket) {
        let i = choose|i: int| 0 <= i < batch@.len()
            && (#[trigger] batch@[i]).ticket == Some(ticket);
        assert(views[i].ticket == Some(ticket));
    }
    if told@.contains(ticket) {
        let i = choose|i: int| 0 <= i < views.len() && (#[trigger] views[i]).ticket == Some(ticket);
        assert(batch@[i].ticket == Some(ticket));
    }
}

} // verus!
