//! Handing committed entries to the state machine: which entries, in which
//! order, and in which batches.

use crate::error::RaftError;
use crate::log::{Log, LogStore, LogType, LogView};
use crate::raft::{Fatal, NodeView, RaftCore};
use crate::state::RaftSharedState;
use std::collections::HashMap;
use vstd::prelude::*;

verus! {

/// A log entry in flight, with the ticket of the client that waits for it,
/// if one does.
#[derive(Debug)]
pub struct LogFuture {
    pub log: Log,
    pub ticket: Option<u64>,
}

/// What a [`LogFuture`] says.
#[verifier::ext_equal]
pub struct FutureView {
    pub log: LogView,
    pub ticket: Option<u64>,
}

impl View for LogFuture {
    type V = FutureView;

    open spec fn view(&self) -> FutureView {
        FutureView { log: self.log@, ticket: self.ticket }
    }
}

/// A committed entry with the ticket of the client that waits for it.
#[derive(Debug)]
pub struct CommitTuple {
    pub log: Log,
    pub ticket: Option<u64>,
}

/// What a [`CommitTuple`] says.
#[verifier::ext_equal]
pub struct CommitView {
    pub log: LogView,
    pub ticket: Option<u64>,
}

impl View for CommitTuple {
    type V = CommitView;

    open spec fn view(&self) -> CommitView {
        CommitView { log: self.log@, ticket: self.ticket }
    }
}

/// What a list of committed entries says, one by one.
pub open spec fn commit_views(batch: Seq<CommitTuple>) -> Seq<CommitView> {
    batch.map_values(|c: CommitTuple| c@)
}

/// Work for the state machine: batches of entries to apply in order, and
/// tickets that are answered without it, each with the index of its entry.
#[derive(Debug)]
pub struct Applying {
    pub batches: Vec<Vec<CommitTuple>>,
    pub answered: Vec<(u64, u64)>,
}

/// All entries of a list of batches, in order.
pub open spec fn flattened(batches: Seq<Vec<CommitTuple>>) -> Seq<CommitView>
    decreases batches.len(),
{
    if batches.len() == 0 {
        Seq::empty()
    } else {
        flattened(batches.drop_last()) + commit_views(batches.last()@)
    }
}

/// The number of entries in a full batch.
pub open spec fn batch_size(max_append_entries: usize) -> nat {
    if max_append_entries == 0 {
        1
    } else {
        max_append_entries as nat
    }
}

/// Every batch is full, but for the last, which is not empty.
pub open spec fn well_batched(batches: Seq<Vec<CommitTuple>>, size: nat) -> bool {
    forall|i: int|
        0 <= i < batches.len() ==> {
            &&& 1 <= (#[trigger] batches[i])@.len() <= size
            &&& i < batches.len() - 1 ==> batches[i]@.len() == size
        }
}

/// The entry at an index: the one in flight, or else the stored one.
pub open spec fn commit_at(
    futures: Map<u64, LogFuture>,
    entries: Map<u64, LogView>,
    index: u64,
) -> CommitView {
    if futures.contains_key(index) {
        CommitView { log: futures[index]@.log, ticket: futures[index]@.ticket }
    } else {
        CommitView { log: entries[index], ticket: None }
    }
}

/// The entries after `from` up to `to` that the state machine gets: all but
/// the no-ops.
pub open spec fn commits_between(
    futures: Map<u64, LogFuture>,
    entries: Map<u64, LogView>,
    from: u64,
    to: u64,
) -> Seq<CommitView>
    decreases to,
{
    if to <= from {
        Seq::empty()
    } else {
        let before = commits_between(futures, entries, from, (to - 1) as u64);
        let c = commit_at(futures, entries, to);
        if c.log.log_type == LogType::Noop {
            before
        } else {
            before.push(c)
        }
    }
}

/// The tickets of the no-ops after `from` up to `to`, each with the index of
/// its entry.
pub open spec fn answered_between(
    futures: Map<u64, LogFuture>,
    entries: Map<u64, LogView>,
    from: u64,
    to: u64,
) -> Seq<(u64, u64)>
    decreases to,
{
    if to <= from {
        Seq::empty()
    } else {
        let before = answered_between(futures, entries, from, (to - 1) as u64);
        let c = commit_at(futures, entries, to);
        match c.ticket {
            Some(ticket) => if c.log.log_type == LogType::Noop {
                before.push((ticket, c.log.index))
            } else {
                before
            },
            None => before,
        }
    }
}

/// The node after its state machine was given the entries up to an index.
pub open spec fn with_applied(n: NodeView, index: u64) -> NodeView {
    NodeView { shared: RaftSharedState { last_applied: index, ..n.shared }, ..n }
}

/// What is handed to the state machine when the entries up to `index` are
/// committed.
pub open spec fn applies(
    n: NodeView,
    futures: Map<u64, LogFuture>,
    entries: Map<u64, LogView>,
    index: u64,
    a: Applying,
) -> bool {
    &&& well_batched(a.batches@, batch_size(n.conf.max_append_entries))
    &&& flattened(a.batches@) == commits_between(futures, entries, n.shared.last_applied, index)
    &&& a.answered@ == answered_between(futures, entries, n.shared.last_applied, index)
}

/// Whether a node fails because of an entry that its log store could not give
/// it.
pub open spec fn unread_in<L: LogStore>(logs: L, f: Fatal) -> bool {
    f matches Fatal::LogUnread(index, e) && call_ensures(
        L::get_log,
        (&logs, index),
        Err::<Log, RaftError>(e),
    )
}

/// Every entry after `from` up to `to` is known, in flight or from the store.
pub open spec fn all_known(
    futures: Map<u64, LogFuture>,
    entries: Map<u64, LogView>,
    from: u64,
    to: u64,
) -> bool {
    forall|i: u64|
        from < i <= to ==> futures.contains_key(i) || #[trigger] entries.contains_key(i)
}

impl RaftCore {
    /// Applies all committed entries that haven't been applied up to the
    /// given index limit. Called by leaders with the entries in flight, and
    /// by followers with none.
    pub fn process_logs<L: LogStore>(
        &mut self,
        logs: &L,
        index: u64,
        futures: HashMap<u64, LogFuture>,
    ) -> (r: Result<Applying, Fatal>)
        ensures
            index <= old(self)@.shared.last_applied ==> r is Ok && final(self)@ == old(self)@,
            r matches Ok(a) ==> applies(old(self)@, futures@, logs.entries(), index, a),
            r is Ok && index > old(self)@.shared.last_applied ==> {
                &&& all_known(
                    futures@,
                    logs.entries(),
                    old(self)@.shared.last_applied,
                    index,
                )
                &&& final(self)@ == with_applied(old(self)@, index)
            },
            r matches Err(f) ==> final(self)@ == old(self)@ && unread_in(*logs, f) && old(
                self,
            )@.shared.last_applied < f->LogUnread_0 <= index && !futures@.contains_key(
                f->LogUnread_0,
            ),
    {
        broadcast use vstd::std_specs::hash::group_hash_axioms;

        let mut batches: Vec<Vec<CommitTuple>> = Vec::new();
        let mut answered: Vec<(u64, u64)> = Vec::new();
        // Reject logs we've applied already.
        let last_applied: u64 = self.shared.last_applied();
        if index <= last_applied {
            let done = Applying { batches, answered };
            assert(applies(old(self)@, futures@, logs.entries(), index, done));
            return Ok(done);
        }
        let max: usize = self.conf.max_append_entries;
        let ghost size = batch_size(max);
        let ghost all_futures = futures@;
        let mut waiting = futures;
        let mut batch: Vec<CommitTuple> = Vec::new();
        let mut idx: u64 = last_applied;
        while idx < index
            invariant
                last_applied <= idx <= index,
                self@ == old(self)@,
                last_applied == old(self)@.shared.last_applied,
                max == old(self)@.conf.max_append_entries,
                size == batch_size(max),
                batch@.len() < size,
                all_futures == futures@,
                forall|k: u64| k > idx ==> #[trigger] waiting@.contains_key(k)
                    == all_futures.contains_key(k),
                forall|k: u64|
                    k > idx && #[trigger] waiting@.contains_key(k) ==> waiting@[k]
                        == all_futures[k],
                all_known(all_futures, logs.entries(), last_applied, idx),
                forall|i: int|
                    0 <= i < batches@.len() ==> (#[trigger] batches@[i])@.len() == size,
                flattened(batches@) + commit_views(batch@) == commits_between(
                    all_futures,
                    logs.entries(),
                    last_applied,
                    idx,
                ),
                answered@ == answered_between(
                    all_futures,
                    logs.entries(),
                    last_applied,
                    idx,
                ),
            decreases index - idx,
        {
            let ghost before = idx;
            idx += 1;
            // Get the log, either from flight or from our log store.
            let (log, ticket): (Log, Option<u64>) = match waiting.remove(&idx) {
                Some(future) => (future.log, future.ticket),
                None => {
                    match logs.get_log(idx) {
                        Ok(log) => (log, None),
                        Err(e) => {
                            return Err(Fatal::LogUnread(idx, e));
                        },
                    }
                },
            };
            let ghost c = commit_at(all_futures, logs.entries(), idx);
            assert(c == (CommitView { log: log@, ticket }));
            assert(all_known(all_futures, logs.entries(), last_applied, idx)) by {
                assert forall|i: u64| last_applied < i <= idx implies all_futures.contains_key(i)
                    || #[trigger] logs.entries().contains_key(i) by {
                    assert(i <= before || i == idx);
                }
            }
            // Barrier, command and configuration logs go to the state
            // machine; no-ops are answered directly.
            if log.log_type == LogType::Noop {
                match ticket {
                    Some(ticket) => {
                        answered.push((ticket, log.index));
                    },
                    None => {},
                }
                continue;
            }
            let ghost batch_before = batch@;
            batch.push(CommitTuple { log, ticket });
            assert(commit_views(batch@) =~= commit_views(batch_before).push(c));
            assert((flattened(batches@) + commit_views(batch_before)).push(c) =~= flattened(
                batches@,
            ) + commit_views(batch@));
            if batch.len() >= max {
                let ghost batches_before = batches@;
                let ghost full = batch@;
                batches.push(batch);
                batch = Vec::new();
                assert(batches@.drop_last() =~= batches_before);
                assert(commit_views(batch@) =~= Seq::empty());
                assert(flattened(batches@) + commit_views(batch@) =~= flattened(batches_before)
                    + commit_views(full));
            }
        }
        // Apply any remaining logs in the batch.
        if batch.len() > 0 {
            let ghost batches_before = batches@;
            batches.push(batch);
            assert(batches@.drop_last() =~= batches_before);
        } else {
            assert(commit_views(batch@) =~= Seq::empty());
            assert(flattened(batches@) + commit_views(batch@) =~= flattened(batches@));
        }
        // Update the last applied index.
        self.shared.set_last_applied(index);
        Ok(Applying { batches, answered })
    }
}

/// Applying up to one index and then on to another hands over the same
/// entries, in the same order, as applying to the latter at once: no entry
/// is skipped and none is handed over twice.
pub proof fn law_application_resumes_where_it_stopped(
    futures: Map<u64, LogFuture>,
    entries: Map<u64, LogView>,
    from: u64,
    middle: u64,
    to: u64,
)
    requires
        from <= middle <= to,
    ensures
        commits_between(futures, entries, from, middle) + commits_between(
            futures,
            entries,
            middle,
            to,
        ) == commits_between(futures, entries, from, to),
    decreases to,
{
    let first = commits_between(futures, entries, from, middle);
    let whole = commits_between(futures, entries, from, to);
    if to == middle {
        assert(first + commits_between(futures, entries, middle, to) =~= whole);
    } else {
        let before = (to - 1) as u64;
        law_application_resumes_where_it_stopped(futures, entries, from, middle, before);
        let rest = commits_between(futures, entries, middle, before);
        let c = commit_at(futures, entries, to);
        assert(first + rest.push(c) =~= (first + rest).push(c));
    }
}

/// Every entry that is not a no-op is handed over, once it is committed.
pub proof fn law_committed_entries_are_handed_over(
    futures: Map<u64, LogFuture>,
    entries: Map<u64, LogView>,
    from: u64,
    to: u64,
    index: u64,
)
    requires
        from < index <= to,
        commit_at(futures, entries, index).log.log_type != LogType::Noop,
    ensures
        commits_between(futures, entries, from, to).contains(commit_at(futures, entries, index)),
    decreases to,
{
    let before = commits_between(futures, entries, from, (to - 1) as u64);
    let whole = commits_between(futures, entries, from, to);
    let c = commit_at(futures, entries, index);
    if index == to {
        assert(whole == before.push(c));
        assert(whole[whole.len() - 1] == c);
    } else {
        law_committed_entries_are_handed_over(futures, entries, from, (to - 1) as u64, index);
        let i = choose|i: int| 0 <= i < before.len() && before[i] == c;
        assert(whole[i] == c);
    }
}

/// The tickets of the clients that wait for entries of a batch, in order.
pub open spec fn waiting_tickets(batch: Seq<CommitView>) -> Seq<u64>
    decreases batch.len(),
{
    if batch.len() == 0 {
        Seq::empty()
    } else {
        let before = waiting_tickets(batch.drop_last());
        match batch.last().ticket {
            Some(ticket) => before.push(ticket),
            None => before,
        }
    }
}

/// The clients that are told of the shutdown, where a batch could no longer
/// be handed to the state machine: all that wait for one of its entries.
pub fn respond_batch_shutdown(batch: &Vec<CommitTuple>) -> (r: Vec<u64>)
    ensures
        r@ == waiting_tickets(commit_views(batch@)),
{
    let ghost views = commit_views(batch@);
    let mut out: Vec<u64> = Vec::new();
    let mut i: usize = 0;
    assert(views.take(0) =~= Seq::empty());
    while i < batch.len()
        invariant
            i <= batch@.len(),
            views == commit_views(batch@),
            out@ == waiting_tickets(views.take(i as int)),
        decreases batch@.len() - i,
    {
        assert(views.take(i + 1).drop_last() =~= views.take(i as int));
        assert(views.take(i + 1).last() == batch@[i as int]@);
        match batch[i].ticket {
            Some(ticket) => {
                out.push(ticket);
            },
            None => {},
        }
        i += 1;
    }
    assert(views.take(i as int) =~= views);
    out
}

} // verus!
