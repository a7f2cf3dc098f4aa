//! What stores give back, what a state machine is handed, which snapshots are
//! kept, and how a node starts from all that.

use crate::api::{
    adopted, bootstrap_cluster, has_existing_state, loaded, new_raft, peer_count, text_pairs,
    unsettled_entries, ClientRequest, Raft, StartError,
};
use crate::append::{decoded_views, lemma_with_log_entries_keeps_shared, with_log_entries};
use crate::apply::{commit_views, CommitTuple, CommitView};
use crate::config::Config;
use crate::configuration::{Configuration, ServerView};
use crate::crc64::{law_bytes_tell_numbers_apart, Crc64};
use crate::error::{RaftError, Result};
use crate::file_snapshot::{
    check_contents, is_snapshot, law_newest_come_first, listed_metas, meta_views, newest_first,
    reaped_metas, tmp_name, FileSnapshotMeta, FileSnapshotMetaView, FileSnapshotSink,
    FileSnapshotStore,
};
use crate::fsm::{
    client_answers, configurations_stored, fsm_entries, position_after, reaches_fsm, Applied,
    BatchingFSM, ConfigurationStore, FsmRunner, FSM,
};
use crate::inmem_snapshot::{InmemSnapshotSink, InmemSnapshotStore};
use crate::inmem_store::{
    bounds_after_store, law_trimming_keeps_the_bounds_right, InmemCommitTrackingStore, InmemStore,
};
use crate::install::{installed_copy, restored_copy, spill_snapshot, InstallStep, Spill};
use crate::laws::following::lemma_last_configuration_counts;
use crate::laws::{lemma_positions_step, positions};
use crate::log::{log_views, CommitTrackingLogStore, Log, LogStore, LogType, LogView};
use crate::log_cache::{cached, ring_with, slot_of, LogCache};
use crate::raft::{recorded_term, Configurations, Fatal, NodeView, RaftCore};
use crate::snapshot::{
    compaction_range, SnapshotMeta, SnapshotPlan, SnapshotStarted, SnapshotStore,
};
use crate::stable::StableStore;
use crate::state::RaftState;
use crate::text::decimal;
use crate::time::Instant;
use crate::transport::{InstallSnapshotRequest, InstallSnapshotResponse};
use vstd::prelude::*;

verus! {

/// Compaction removes exactly what the snapshot covers and what need not trail
/// at the end of the log, from the first entry that the store names on.
pub proof fn law_compaction_removes_what_is_dispensable<L: LogStore>(
    core: &RaftCore,
    logs: &mut L,
    snap_idx: u64,
    r: Result<()>,
)
    requires
        call_ensures(RaftCore::compact_logs::<L>, (core, logs, snap_idx), r),
        r is Ok,
        old(logs).settled(),
    ensures
        exists|first: u64| #[trigger]
            call_ensures(L::first_index, (&*old(logs),), Ok::<u64, RaftError>(first)) && {
                let before = old(logs).entries();
                let after = final(logs).entries();
                let last_log = core@.shared.last_log.0;
                let trailing = core@.conf.trailing_logs;
                forall|index: u64| #[trigger]
                    after.contains_key(index) <==> before.contains_key(index) && !(first <= index
                        <= snap_idx && last_log > trailing && index <= last_log - trailing)
            },
        forall|index: u64| #[trigger]
            final(logs).entries().contains_key(index)
                ==> final(logs).entries()[index] == old(logs).entries()[index],
{
    let first = choose|first: u64|
        call_ensures(L::first_index, (&*old(logs),), Ok::<u64, RaftError>(first))
            && crate::snapshot::range_removed(
            *old(logs),
            #[trigger] compaction_range(
                first,
                core@.shared.last_log.0,
                core@.conf.trailing_logs,
                snap_idx,
            ),
            *final(logs),
        );
    assert(call_ensures(L::first_index, (&*old(logs),), Ok::<u64, RaftError>(first)));
}

/// Once a snapshot was taken, it is the last one, and nothing else of the node
/// has changed.
pub proof fn law_taken_snapshot_is_the_last<L: LogStore>(
    core: &mut RaftCore,
    logs: &mut L,
    index: u64,
    term: u64,
    r: Result<()>,
)
    requires
        call_ensures(RaftCore::finish_snapshot::<L>, (core, logs, index, term), r),
    ensures
        final(core)@.shared.last_snapshot == (index, term),
        final(core)@.shared.last_log == old(core)@.shared.last_log,
        final(core)@.shared.last_applied == old(core)@.shared.last_applied,
        final(core)@.shared.commit_index == old(core)@.shared.commit_index,
        final(core)@.configurations == old(core)@.configurations,
{
}

/// A snapshot is taken at what the machine has applied, with the committed
/// membership, and only once the machine has applied that.
pub proof fn law_snapshots_hold_the_committed_membership(
    started: SnapshotStarted,
    configurations: &Configurations,
    r: Result<SnapshotPlan>,
)
    requires
        call_ensures(
            RaftCore::plan_snapshot,
            (Ok::<SnapshotStarted, RaftError>(started), configurations),
            r,
        ),
    ensures
        r is Ok <==> started.index >= configurations.committed_index,
        r matches Ok(plan) ==> {
            &&& plan.index == started.index
            &&& plan.term == started.term
            &&& plan.configuration@ == configurations.committed@
            &&& plan.configuration_index == configurations.committed_index
            &&& plan.configuration_index <= plan.index
        },
{
}

/// A shipped snapshot is taken up only where it comes with data, in a known
/// format, from a term that is not older; then it is kept as it was shipped,
/// and the node follows whoever ships it.
pub proof fn law_shipped_snapshots_are_taken_up<S: StableStore>(
    core: &mut RaftCore,
    stable: &mut S,
    req: &InstallSnapshotRequest,
    has_data: bool,
    decoded: Result<Configuration>,
    step: InstallStep,
)
    requires
        call_ensures(
            RaftCore::begin_install::<S>,
            (core, stable, req, has_data, decoded),
            Ok::<InstallStep, Fatal>(step),
        ),
    ensures
        ({
            let n = old(core)@;
            let after = final(core)@;
            let fit = has_data && req.snapshot_version == 1 && req.term >= n.shared.current_term;
            &&& step is Create <==> fit && decoded is Ok
            &&& step matches InstallStep::Create(plan) ==> {
                &&& plan.index == req.last_log_index
                &&& plan.term == req.last_log_term
                &&& plan.configuration@ == decoded->Ok_0@
                &&& plan.configuration_index == req.configuration_index
            }
            &&& !fit ==> after == n
            &&& fit ==> {
                &&& after.shared.current_term == req.term
                &&& after.leader_addr == req.header.addr@
                &&& after.leader_id == req.header.id@
                &&& req.term > n.shared.current_term ==> after.shared.state
                    == RaftState::Follower && recorded_term(final(stable)) == req.term
                &&& req.term == n.shared.current_term ==> after.shared.state == n.shared.state
            }
            &&& step matches InstallStep::Stale(resp) ==> !resp.success && resp.term
                == n.shared.current_term && req.term < n.shared.current_term
        }),
{
}

/// What was stored last under an index is read back, and no other index is
/// touched.
pub proof fn law_stored_entry_is_read_back(
    store: &mut InmemStore,
    log: &Log,
    r: Result<()>,
    index: u64,
    read: Result<Log>,
    before: Result<Log>,
)
    requires
        call_ensures(InmemStore::store_log, (store, log), r),
        call_ensures(InmemStore::get_log, (&*old(store), index), before),
        call_ensures(InmemStore::get_log, (&*final(store), index), read),
    ensures
        r is Ok,
        index == log.index ==> (read matches Ok(given) && given@ == log@),
        index != log.index ==> (read is Ok <==> before is Ok) && (read is Ok ==> read->Ok_0@
            == before->Ok_0@),
{
}

/// A deleted range is not read back, and everything else is.
pub proof fn law_deleted_entries_are_gone(
    store: &mut InmemStore,
    min: u64,
    max: u64,
    r: Result<()>,
    index: u64,
    read: Result<Log>,
    before: Result<Log>,
)
    requires
        call_ensures(InmemStore::delete_range, (store, min, max), r),
        call_ensures(InmemStore::get_log, (&*old(store), index), before),
        call_ensures(InmemStore::get_log, (&*final(store), index), read),
    ensures
        r is Ok,
        min <= index <= max ==> read is Err,
        !(min <= index <= max) ==> (read is Ok <==> before is Ok) && (read is Ok ==> read->Ok_0@
            == before->Ok_0@),
{
}

/// A number that was set is read back under its key, and no other key is
/// touched; the same holds of bytes.
pub proof fn law_set_values_are_read_back(
    store: &mut InmemStore,
    key: &[u8],
    val: u64,
    r: Result<()>,
    other: &[u8],
    read: Result<Option<u64>>,
    before: Result<Option<u64>>,
)
    requires
        call_ensures(InmemStore::set_u64, (store, key, val), r),
        call_ensures(InmemStore::get_u64, (&*old(store), other), before),
        call_ensures(InmemStore::get_u64, (&*final(store), other), read),
    ensures
        r is Ok,
        other@ == key@ ==> (read matches Ok(Some(v)) && v == val),
        other@ != key@ ==> read->Ok_0 == before->Ok_0,
{
}

/// What is written to a snapshot is what it holds, behind what was written
/// before; and its size is that of what it holds.
pub proof fn law_written_bytes_are_kept(
    store: &mut InmemSnapshotStore,
    sink: &mut InmemSnapshotSink,
    buf: &[u8],
    r: Result<usize>,
    id: &str,
    opened: Result<(SnapshotMeta, Vec<u8>)>,
)
    requires
        call_ensures(InmemSnapshotStore::write, (store, sink, buf), r),
        old(store).held() is Some,
        old(store).held()->Some_0.serial == old(sink).number(),
        old(store).held()->Some_0.meta.id == id@,
        old(store).held()->Some_0.contents.len() + buf@.len() <= u64::MAX,
        call_ensures(InmemSnapshotStore::open, (&*final(store), id), opened),
    ensures
        r is Ok,
        opened matches Ok(found) && found.1@ == old(store).held()->Some_0.contents + buf@
            && found.0@.size == found.1@.len()
                && found.0@.index == old(store).held()->Some_0.meta.index
                && found.0@.term == old(store).held()->Some_0.meta.term
            && found.0@.configuration == old(store).held()->Some_0.meta.configuration,
{
}

proof fn lemma_entries_of_prefix<R>(
    batch: Seq<CommitView>,
    given: Seq<Result<R>>,
    batching: bool,
    i: int,
)
    requires
        0 <= i < batch.len(),
    ensures
        reaches_fsm(batch[i].log, batching) ==> fsm_entries(batch.take(i), batching).len()
            < fsm_entries(batch, batching).len() && fsm_entries(batch, batching)[fsm_entries(
            batch.take(i),
            batching,
        ).len() as int] == batch[i].log,
        batch[i].ticket matches Some(ticket) ==> exists|j: int|
            {
                &&& 0 <= j < client_answers(batch, given, batching).len()
                &&& (#[trigger] client_answers(batch, given, batching)[j]).ticket == ticket
                &&& client_answers(batch, given, batching)[j].outcome.index == batch[i].log.index
                &&& client_answers(batch, given, batching)[j].outcome.response == if reaches_fsm(
                    batch[i].log,
                    batching,
                ) {
                    Some(given[fsm_entries(batch.take(i), batching).len() as int])
                } else {
                    None
                }
            },
    decreases batch.len(),
{
    let front = batch.drop_last();
    let answers = client_answers(batch, given, batching);
    let before = client_answers(front, given, batching);
    if i == batch.len() - 1 {
        assert(batch.take(i) =~= front);
        if batch[i].ticket is Some {
            let j = before.len() as int;
            assert(answers[j].ticket == batch[i].ticket->Some_0);
        }
    } else {
        assert(front[i] == batch[i]);
        assert(front.take(i) =~= batch.take(i));
        lemma_entries_of_prefix(front, given, batching, i);
        if batch[i].ticket is Some {
            let ticket = batch[i].ticket->Some_0;
            let j = choose|j: int|
                {
                    &&& 0 <= j < before.len()
                    &&& (#[trigger] before[j]).ticket == ticket
                    &&& before[j].outcome.index == batch[i].log.index
                    &&& before[j].outcome.response == if reaches_fsm(batch[i].log, batching) {
                        Some(given[fsm_entries(batch.take(i), batching).len() as int])
                    } else {
                        None
                    }
                };
            assert(answers[j] == before[j]);
        }
    }
}

/// A committed command is applied, once its turn comes, and whoever waits for
/// it gets the machine's own answer to it, with its index; whoever waits for
/// another kind of entry is answered without one, unless the machine is handed
/// those too.
pub proof fn law_committed_commands_are_applied_and_answered<
    F: BatchingFSM + ConfigurationStore,
>(
    runner: &mut FsmRunner,
    fsm: &mut F,
    batch: &Vec<CommitTuple>,
    decoded: &Vec<Option<Configuration>>,
    r: Vec<Applied<F::Response>>,
    i: int,
)
    requires
        call_ensures(FsmRunner::apply_commit::<F>, (runner, fsm, batch, decoded), r),
        0 <= i < batch@.len(),
        old(fsm).trace().applied.len() == old(fsm).trace().answers.len(),
    ensures
        ({
            let before = old(fsm).trace();
            let after = final(fsm).trace();
            let log = batch@[i].log@;
            let handed = log.log_type == LogType::Command || (F::batches() && log.log_type
                == LogType::Configuration);
            &&& handed ==> exists|k: int|
                {
                    &&& before.applied.len() <= k < after.applied.len()
                    &&& #[trigger] after.applied[k] == log
                    &&& batch@[i].ticket matches Some(ticket) ==> exists|j: int|
                        0 <= j < r@.len() && (#[trigger] r@[j]).ticket == ticket
                            && r@[j].outcome.index == log.index && r@[j].outcome.response == Some(
                            after.answers[k],
                        )
                }
            &&& !handed ==> (batch@[i].ticket matches Some(ticket) ==> exists|j: int|
                0 <= j < r@.len() && (#[trigger] r@[j]).ticket == ticket && r@[j].outcome.index
                    == log.index && r@[j].outcome.response is None)
        }),
{
    let before = old(fsm).trace();
    let after = final(fsm).trace();
    let views = commit_views(batch@);
    let given = after.answers.skip(before.answers.len() as int);
    let batching = F::batches();
    assert(views[i] == batch@[i]@);
    lemma_entries_of_prefix(views, given, batching, i);
    let at = fsm_entries(views.take(i), batching).len() as int;
    if reaches_fsm(views[i].log, batching) {
        let k = before.applied.len() + at;
        assert(after.applied[k] == fsm_entries(views, batching)[at]);
        assert(after.answers[k] == given[at]);
    }
}

proof fn lemma_handed_entries_are_of_the_batch(batch: Seq<CommitView>, batching: bool, k: int)
    requires
        0 <= k < fsm_entries(batch, batching).len(),
    ensures
        exists|i: int|
            0 <= i < batch.len() && (#[trigger] batch[i]).log == fsm_entries(batch, batching)[k],
        reaches_fsm(fsm_entries(batch, batching)[k], batching),
    decreases batch.len(),
{
    if batch.len() > 0 {
        let front = batch.drop_last();
        if k < fsm_entries(front, batching).len() {
            lemma_handed_entries_are_of_the_batch(front, batching, k);
            let i = choose|i: int|
                0 <= i < front.len() && (#[trigger] front[i]).log == fsm_entries(
                    front,
                    batching,
                )[k];
            assert(batch[i].log == fsm_entries(batch, batching)[k]);
        } else {
            assert(batch[batch.len() - 1].log == fsm_entries(batch, batching)[k]);
        }
    }
}

/// A machine is handed nothing but commands of the batch (and memberships, if
/// it takes batches), behind what it was handed before.
pub proof fn law_machine_is_handed_commands_only<F: BatchingFSM + ConfigurationStore>(
    runner: &mut FsmRunner,
    fsm: &mut F,
    batch: &Vec<CommitTuple>,
    decoded: &Vec<Option<Configuration>>,
    r: Vec<Applied<F::Response>>,
    k: int,
)
    requires
        call_ensures(FsmRunner::apply_commit::<F>, (runner, fsm, batch, decoded), r),
        0 <= k < final(fsm).trace().applied.len(),
    ensures
        ({
            let before = old(fsm).trace().applied;
            let after = final(fsm).trace().applied;
            &&& after.len() >= before.len()
            &&& k < before.len() ==> after[k] == before[k]
            &&& k >= before.len() ==> exists|i: int|
                0 <= i < batch@.len() && (#[trigger] batch@[i]).log@ == after[k] && (
                after[k].log_type == LogType::Command || (F::batches() && after[k].log_type
                    == LogType::Configuration))
        }),
{
    let before = old(fsm).trace().applied;
    let views = commit_views(batch@);
    if k >= before.len() {
        lemma_handed_entries_are_of_the_batch(views, F::batches(), k - before.len());
        let i = choose|i: int|
            0 <= i < views.len() && (#[trigger] views[i]).log == fsm_entries(views, F::batches())[k
                - before.len()];
        assert(batch@[i].log@ == views[i].log);
    }
}

/// A machine that was restored stands where the snapshot was taken; one that
/// was not, stands where it stood.
pub proof fn law_restored_machine_stands_at_the_snapshot<F: FSM>(
    runner: &mut FsmRunner,
    fsm: &mut F,
    id: &str,
    opened: Result<(SnapshotMeta, F::Reader)>,
    r: Result<()>,
)
    requires
        call_ensures(FsmRunner::restore::<F>, (runner, fsm, id, opened), r),
    ensures
        r is Ok ==> opened is Ok && final(runner).last_index == opened->Ok_0.0.index
            && final(runner).last_term == opened->Ok_0.0.term,
        r is Err ==> final(runner).last_index == old(runner).last_index
            && final(runner).last_term == old(runner).last_term,
        opened is Err ==> r is Err,
{
}

proof fn lemma_listed_is_found(metas: Seq<FileSnapshotMetaView>, p: int)
    requires
        0 <= p < newest_first(metas).len(),
    ensures
        metas.contains(newest_first(metas)[p]),
{
    law_newest_come_first(metas);
    let sorted = newest_first(metas);
    broadcast use vstd::seq_lib::group_to_multiset_ensures;

    assert(sorted.to_multiset().count(sorted[p]) > 0) by {
        assert(sorted.contains(sorted[p]));
    }
    assert(metas.to_multiset().count(sorted[p]) > 0);
}

proof fn lemma_found_is_sorted(metas: Seq<FileSnapshotMetaView>, q: int)
    requires
        0 <= q < metas.len(),
    ensures
        newest_first(metas).contains(metas[q]),
{
    law_newest_come_first(metas);
    broadcast use vstd::seq_lib::group_to_multiset_ensures;

    assert(metas.to_multiset().count(metas[q]) > 0) by {
        assert(metas.contains(metas[q]));
    }
    assert(newest_first(metas).to_multiset().count(metas[q]) > 0);
}

/// Of the snapshots that are found, as many are listed as are kept, or all;
/// those of a higher term come first, then those of a higher index; and none
/// that is left out is newer than one that is listed.
pub proof fn law_newest_snapshots_are_listed<P>(
    store: &FileSnapshotStore<P>,
    metas: Vec<FileSnapshotMeta>,
    r: Vec<SnapshotMeta>,
    i: int,
    j: int,
    q: int,
)
    requires
        call_ensures(FileSnapshotStore::<P>::listed, (store, metas), r),
        0 <= i < r@.len(),
        0 <= q < metas@.len(),
    ensures
        r@.len() == if metas@.len() <= store.kept() {
            metas@.len()
        } else {
            store.kept() as nat
        },
        exists|p: int| 0 <= p < metas@.len() && (#[trigger] metas@[p])@.meta == r@[i]@,
        i < j < r@.len() ==> r@[i].term > r@[j].term || (r@[i].term == r@[j].term && r@[i].index
            >= r@[j].index),
        (exists|p: int| 0 <= p < r@.len() && (#[trigger] r@[p])@ == metas@[q]@.meta) || r@[i].term
            > metas@[q].term || (r@[i].term == metas@[q].term && r@[i].index >= metas@[q].index),
{
    let views = meta_views(metas@);
    let sorted = newest_first(views);
    let listed = listed_metas(views, store.kept() as nat);
    law_newest_come_first(views);
    assert(r@[i]@ == listed[i].meta);
    assert(listed[i] == sorted[i]);
    lemma_listed_is_found(views, i);
    let p = choose|p: int| 0 <= p < views.len() && views[p] == sorted[i];
    assert(metas@[p]@ == views[p]);
    if i < j < r@.len() {
        assert(r@[j]@ == listed[j].meta);
        assert(listed[j] == sorted[j]);
        assert(!crate::file_snapshot::older(sorted[i].meta, sorted[j].meta));
    }
    assert(views[q] == metas@[q]@);
    lemma_found_is_sorted(views, q);
    let at = choose|at: int| 0 <= at < sorted.len() && sorted[at] == views[q];
    if at < r@.len() {
        assert(r@[at]@ == listed[at].meta);
    } else {
        assert(!crate::file_snapshot::older(sorted[i].meta, sorted[at].meta));
    }
}

/// A node starts as a follower in the recorded term that knows no leader and
/// has committed nothing; its log ends as its store says, and what a snapshot
/// covers, if one was taken up, is applied.
pub proof fn law_node_starts_from_what_is_kept<
    F: FSM,
    L: LogStore,
    S: StableStore,
    N: SnapshotStore<Reader = F::Reader>,
    D: Fn(&Vec<u8>) -> Option<Configuration>,
>(
    conf: Config,
    local_addr: String,
    fsm: &mut F,
    logs: &L,
    stable: &mut S,
    snaps: &N,
    decode: &D,
    raft: Raft,
)
    requires
        call_ensures(
            new_raft::<F, L, S, N, D>,
            (conf, local_addr, fsm, logs, stable, snaps, decode),
            Ok::<Raft, StartError>(raft),
        ),
    ensures
        raft.core@.shared.state == RaftState::Follower,
        raft.core@.shared.current_term == recorded_term(old(stable)),
        recorded_term(final(stable)) == recorded_term(old(stable)),
        raft.core@.shared.commit_index == 0,
        raft.core@.local_id == conf@.local_id,
        raft.core@.local_addr == local_addr@,
        exists|last_index: u64, metas: Vec<SnapshotMeta>|
            #![trigger call_ensures(L::last_index, (logs,), Ok::<u64, RaftError>(last_index)),
                call_ensures(N::list, (snaps,), Ok::<Vec<SnapshotMeta>, RaftError>(metas))]
            {
                let shared = raft.core@.shared;
                &&& call_ensures(L::last_index, (logs,), Ok::<u64, RaftError>(last_index))
                &&& call_ensures(N::list, (snaps,), Ok::<Vec<SnapshotMeta>, RaftError>(metas))
                &&& last_index == 0 ==> shared.last_log == (0u64, 0u64)
                &&& last_index > 0 ==> shared.last_log == (
                    logs.entries()[last_index].index,
                    logs.entries()[last_index].term,
                )
                &&& metas@.len() == 0 ==> shared.last_applied == 0 && shared.last_snapshot == (
                    0u64,
                    0u64,
                )
                &&& metas@.len() > 0 ==> exists|k: int|
                    0 <= k < metas@.len() && shared.last_applied == (
                    #[trigger] metas@[k]).index && shared.last_snapshot == (
                        metas@[k].index,
                        metas@[k].term,
                    ) && (conf@.no_snapshot_restore_on_start ==> k == 0)
            },
{
    let (last_index, metas) = choose|last_index: u64, metas: Vec<SnapshotMeta>|
        #![trigger call_ensures(L::last_index, (logs,), Ok::<u64, RaftError>(last_index)),
            call_ensures(N::list, (snaps,), Ok::<Vec<SnapshotMeta>, RaftError>(metas))]
        {
            &&& call_ensures(L::last_index, (logs,), Ok::<u64, RaftError>(last_index))
            &&& call_ensures(N::list, (snaps,), Ok::<Vec<SnapshotMeta>, RaftError>(metas))
            &&& crate::api::starts_as(
                loaded(
                    conf@,
                    local_addr@,
                    recorded_term(old(stable)),
                    logs.entries(),
                    last_index,
                ),
                logs.entries(),
                snaps,
                metas@,
                decode,
                raft.core@,
                old(fsm).trace(),
                final(fsm).trace(),
            )
        };
    let before = loaded(
        conf@,
        local_addr@,
        recorded_term(old(stable)),
        logs.entries(),
        last_index,
    );
    let m = choose|m: NodeView|
        crate::api::adopts(before, snaps, metas@, m, old(fsm).trace(), final(fsm).trace())
            && crate::api::scanned_as(m, logs.entries(), decode, raft.core@);
    let decoded = choose|decoded: Seq<Option<Configuration>>|
        #[trigger] crate::api::decodes_all(decode, unsettled_entries(m, logs.entries()), decoded)
            && raft.core@ == crate::append::with_log_entries(
            m,
            unsettled_entries(m, logs.entries()),
            decoded_views(decoded),
        );
    lemma_with_log_entries_keeps_shared(
        m,
        unsettled_entries(m, logs.entries()),
        decoded_views(decoded),
    );
    crate::append::lemma_with_log_entries_keeps_leader(
        m,
        unsettled_entries(m, logs.entries()),
        decoded_views(decoded),
    );
    if metas@.len() > 0 {
        if before.conf.no_snapshot_restore_on_start {
            assert(m == adopted(before, metas@[0]@));
            assert(raft.core@.shared.last_applied == metas@[0].index);
        } else {
            let k = choose|k: int|
                0 <= k < metas@.len() && m == adopted(before, (#[trigger] metas@[k])@)
                    && crate::api::restored_from(
                    old(fsm).trace(),
                    snaps,
                    metas@,
                    k,
                    final(fsm).trace(),
                );
            assert(raft.core@.shared.last_applied == metas@[k].index);
        }
    }
}

/// A cluster that is brought into being has the first term on record and the
/// membership as its first entry.
pub proof fn law_cluster_begins_with_its_membership<
    L: LogStore,
    S: StableStore,
    N: SnapshotStore,
>(
    conf: &Config,
    logs: &mut L,
    stable: &mut S,
    snaps: &N,
    configuration: &Configuration,
    data: Vec<u8>,
    r: Result<()>,
)
    requires
        call_ensures(
            bootstrap_cluster::<L, S, N>,
            (conf, logs, stable, snaps, configuration, Ok::<Vec<u8>, RaftError>(data)),
            r,
        ),
        r is Ok,
    ensures
        recorded_term(final(stable)) == 1,
        old(logs).settled() ==> {
            let stored = final(logs).entries();
            &&& stored.contains_key(1)
            &&& stored[1].index == 1
            &&& stored[1].term == 1
            &&& stored[1].log_type == LogType::Configuration
            &&& stored[1].data == data@
        },
        recorded_term(old(stable)) == 0,
{
}

/// State is found where a term is on record, and where the log has an end or
/// there is a snapshot; and only there.
pub proof fn law_state_is_found_where_there_is_some<
    L: LogStore,
    S: StableStore,
    N: SnapshotStore,
>(logs: &L, stable: &S, snaps: &N, found: bool)
    requires
        call_ensures(
            has_existing_state::<L, S, N>,
            (logs, stable, snaps),
            Ok::<bool, RaftError>(found),
        ),
    ensures
        recorded_term(stable) > 0 ==> found,
        !found ==> call_ensures(L::last_index, (logs,), Ok::<u64, RaftError>(0)),
        !found ==> exists|metas: Vec<SnapshotMeta>| #[trigger]
            call_ensures(N::list, (snaps,), Ok::<Vec<SnapshotMeta>, RaftError>(metas))
                && metas@.len() == 0,
        found && recorded_term(stable) == 0 ==> (exists|last: u64| #[trigger]
            call_ensures(L::last_index, (logs,), Ok::<u64, RaftError>(last)) && last > 0) || (
        exists|metas: Vec<SnapshotMeta>| #[trigger]
            call_ensures(N::list, (snaps,), Ok::<Vec<SnapshotMeta>, RaftError>(metas))
                && metas@.len() > 0),
{
}

/// Only a leader takes requests of clients; nobody is brought into being twice,
/// and anybody may be asked for the memberships.
pub proof fn law_only_leaders_serve(raft: &Raft, request: ClientRequest, r: Option<RaftError>)
    requires
        call_ensures(Raft::refusal, (raft, request), r),
    ensures
        request is Bootstrap ==> (r matches Some(e) && e is CantBootstrap),
        request is ReadConfigurations ==> r is None,
        !(request is Bootstrap) && !(request is ReadConfigurations) ==> (r is None
            <==> raft.core@.shared.state == RaftState::Leader) && (r matches Some(e) ==> e
            is NotLeader),
{
}

/// A node is shut down once.
pub proof fn law_shutdown_happens_once(raft: &mut Raft, first: bool)
    requires
        call_ensures(Raft::shutdown, (raft,), first),
    ensures
        first <==> !old(raft).core@.shutdown,
        final(raft).core@.shutdown,
        first ==> final(raft).core@.shared.state == RaftState::Shutdown,
        !first ==> final(raft).core@ == old(raft).core@,
{
}

/// After a batch the machine stands at its last entry; only a membership at the
/// end of it does not count for a machine that is handed none.
pub proof fn law_machine_stands_at_the_last_entry<F: BatchingFSM + ConfigurationStore>(
    runner: &mut FsmRunner,
    fsm: &mut F,
    batch: &Vec<CommitTuple>,
    decoded: &Vec<Option<Configuration>>,
    r: Vec<Applied<F::Response>>,
)
    requires
        call_ensures(FsmRunner::apply_commit::<F>, (runner, fsm, batch, decoded), r),
    ensures
        batch@.len() == 0 ==> final(runner).last_index == old(runner).last_index
            && final(runner).last_term == old(runner).last_term,
        batch@.len() > 0 && (F::batches() || F::stores() || batch@.last().log.log_type
            != LogType::Configuration) ==> final(runner).last_index == batch@.last().log.index
            && final(runner).last_term == batch@.last().log.term,
{
    let views = commit_views(batch@);
    if batch@.len() > 0 {
        assert(views.last() == batch@.last()@);
    }
}

proof fn lemma_memberships_are_stored(
    batch: Seq<CommitView>,
    decoded: Seq<Option<Seq<ServerView>>>,
    i: int,
)
    requires
        batch.len() == decoded.len(),
        0 <= i < batch.len(),
        batch[i].log.log_type == LogType::Configuration,
        decoded[i] is Some,
    ensures
        configurations_stored(batch, decoded).contains((batch[i].log.index, decoded[i]->Some_0)),
    decreases batch.len(),
{
    let front = configurations_stored(batch.drop_last(), decoded.drop_last());
    let all = configurations_stored(batch, decoded);
    let pair = (batch[i].log.index, decoded[i]->Some_0);
    if i == batch.len() - 1 {
        assert(all[front.len() as int] == pair);
    } else {
        lemma_memberships_are_stored(batch.drop_last(), decoded.drop_last(), i);
        let j = choose|j: int| 0 <= j < front.len() && front[j] == pair;
        assert(all[j] == pair);
    }
}

/// A machine that keeps memberships, and takes entries one by one, is given
/// each that is committed, with its index.
pub proof fn law_committed_memberships_are_given_to_be_kept<F: BatchingFSM + ConfigurationStore>(
    runner: &mut FsmRunner,
    fsm: &mut F,
    batch: &Vec<CommitTuple>,
    decoded: &Vec<Option<Configuration>>,
    r: Vec<Applied<F::Response>>,
    i: int,
)
    requires
        call_ensures(FsmRunner::apply_commit::<F>, (runner, fsm, batch, decoded), r),
        batch@.len() == decoded@.len(),
        0 <= i < batch@.len(),
        batch@[i].log.log_type == LogType::Configuration,
        decoded@[i] is Some,
        F::stores(),
        !F::batches(),
    ensures
        exists|k: int|
            old(fsm).trace().stored.len() <= k < final(fsm).trace().stored.len()
                && #[trigger] final(fsm).trace().stored[k]
                == (batch@[i].log.index, decoded@[i]->Some_0@),
{
    let views = commit_views(batch@);
    let given = decoded_views(decoded@);
    assert(views[i] == batch@[i]@);
    assert(given[i] == Some(decoded@[i]->Some_0@));
    lemma_memberships_are_stored(views, given, i);
    let new = configurations_stored(views, given);
    let j = choose|j: int|
        0 <= j < new.len() && new[j] == (views[i].log.index, given[i]->Some_0);
    assert(final(fsm).trace().stored[old(fsm).trace().stored.len() + j] == new[j]);
}

/// A machine to which nothing was applied is not snapshotted; any other is, at
/// the last entry that was.
pub proof fn law_snapshots_are_taken_where_the_machine_stands<F: FSM>(
    runner: &FsmRunner,
    fsm: &mut F,
    r: Result<(SnapshotStarted, F::Snapshot)>,
)
    requires
        call_ensures(FsmRunner::snapshot::<F>, (runner, fsm), r),
    ensures
        runner.last_index == 0 ==> (r matches Err(e) && e is NothingNewToSnapshot),
        r matches Ok((started, _)) ==> started.index == runner.last_index && started.term
            == runner.last_term && runner.last_index > 0,
        final(fsm).trace() == old(fsm).trace(),
{
}

/// A read through a cache gives back what was written through it last, without
/// a question to the store.
pub proof fn law_cache_gives_back_what_was_written<L: LogStore>(
    cache: &mut LogCache<L>,
    log: &Log,
    r: Result<()>,
    read: Result<Log>,
)
    requires
        call_ensures(LogCache::<L>::store_log, (cache, log), r),
        r is Ok,
        old(cache).ring().len() > 0,
        call_ensures(LogCache::<L>::get_log, (&*final(cache), log.index), read),
    ensures
        read matches Ok(given) && given@ == log@,
{
    let ring = old(cache).ring();
    let one = seq![log@];
    assert(one.drop_last() =~= Seq::empty());
    reveal_with_fuel(ring_with, 2);
    let slot = slot_of(log.index, ring.len());
    assert(0 <= slot < ring.len()) by (nonlinear_arith)
        requires
            slot == (log.index as usize) as int % ring.len() as int,
            ring.len() > 0,
    ;
    assert(final(cache).ring()[slot] == Some(log@));
    assert(cached(final(cache).ring(), log.index) == Some(log@));
}

/// A write that failed puts nothing into the cache, and takes nothing out.
pub proof fn law_failed_writes_leave_the_cache<L: LogStore>(
    cache: &mut LogCache<L>,
    logs: &Vec<Log>,
    r: Result<()>,
)
    requires
        call_ensures(LogCache::<L>::store_logs, (cache, logs), r),
        r is Err,
    ensures
        final(cache).ring() == old(cache).ring(),
{
}

/// As many snapshots are removed as there are beyond those that are kept, each
/// is one that was found, and all that remain are listed.
pub proof fn law_older_snapshots_are_removed<P>(
    store: &FileSnapshotStore<P>,
    metas: Vec<FileSnapshotMeta>,
    r: Vec<String>,
    i: int,
    j: int,
)
    requires
        call_ensures(FileSnapshotStore::<P>::reaped, (store, metas), r),
        0 <= i < r@.len(),
        0 <= j < store.kept(),
    ensures
        r@.len() == metas@.len() - store.kept(),
        exists|p: int|
            0 <= p < metas@.len() && (#[trigger] metas@[p])@.meta.id == r@[i]@ && ({
                let kept = newest_first(meta_views(metas@))[j].meta;
                kept.term > metas@[p].term || (kept.term == metas@[p].term && kept.index
                    >= metas@[p].index)
            }),
{
    let views = meta_views(metas@);
    let sorted = newest_first(views);
    let kept = store.kept() as int;
    law_newest_come_first(views);
    assert(r@[i]@ == reaped_metas(views, kept as nat)[i].meta.id);
    assert(reaped_metas(views, kept as nat)[i] == sorted[kept + i]);
    lemma_listed_is_found(views, kept + i);
    let p = choose|p: int| 0 <= p < views.len() && views[p] == sorted[kept + i];
    assert(metas@[p]@ == views[p]);
    assert(!crate::file_snapshot::older(sorted[j].meta, sorted[kept + i].meta));
}

/// A snapshot that is still being written is not taken for a finished one.
pub proof fn law_unfinished_snapshots_are_passed_over(
    id: &str,
    name: String,
    listed: &str,
    is_dir: bool,
    r: bool,
)
    requires
        call_ensures(tmp_name, (id,), name),
        listed@ == name@,
        call_ensures(is_snapshot, (listed, is_dir), r),
    ensures
        !r,
{
}

/// Contents pass the check of a sealed snapshot exactly where their check is
/// that of what was written.
pub proof fn law_only_unchanged_contents_pass(
    sink: &mut FileSnapshotSink,
    size: u64,
    contents: &Crc64,
    read: &Crc64,
    r: Result<()>,
)
    requires
        call_ensures(FileSnapshotSink::seal, (sink, size, contents), ()),
        call_ensures(check_contents, (&final(sink).meta, read), r),
    ensures
        r is Ok <==> read.so_far() == contents.so_far(),
        final(sink).meta.size == size,
        final(sink).meta.index == old(sink).meta.index,
        final(sink).meta.term == old(sink).meta.term,
{
    if r is Ok {
        law_bytes_tell_numbers_apart(read.so_far(), contents.so_far());
    }
}

/// A snapshot in memory is listed as it was begun, takes the place of the one
/// before it, and is gone once it is cancelled.
pub proof fn law_latest_snapshot_is_listed(
    store: &mut InmemSnapshotStore,
    index: u64,
    term: u64,
    configuration: &Configuration,
    configuration_index: u64,
    sink: InmemSnapshotSink,
    listed: Result<Vec<SnapshotMeta>>,
)
    requires
        call_ensures(
            InmemSnapshotStore::create,
            (store, 1u8, index, term, configuration, configuration_index),
            Ok::<InmemSnapshotSink, RaftError>(sink),
        ),
        call_ensures(InmemSnapshotStore::list, (&*final(store),), listed),
    ensures
        listed matches Ok(metas) && metas@.len() == 1 && metas@[0].index == index && metas@[0].term
            == term && metas@[0].configuration@ == configuration@ && metas@[0].configuration_index
            == configuration_index,
{
}

/// A snapshot that was cancelled is not listed.
pub proof fn law_cancelled_snapshot_is_gone(
    store: &mut InmemSnapshotStore,
    sink: &mut InmemSnapshotSink,
    r: Result<()>,
    listed: Result<Vec<SnapshotMeta>>,
)
    requires
        old(store).held() is Some,
        old(store).held()->Some_0.serial == old(sink).number(),
        call_ensures(InmemSnapshotStore::cancel, (store, sink), r),
        call_ensures(InmemSnapshotStore::list, (&*final(store),), listed),
    ensures
        listed matches Ok(metas) && metas@.len() == 0,
{
}

/// A node that starts uses the last membership that its log holds beyond what
/// its snapshot settled.
pub proof fn law_start_finds_the_latest_membership<
    L: LogStore,
    D: Fn(&Vec<u8>) -> Option<Configuration>,
>(
    core: &mut RaftCore,
    logs: &L,
    decode: &D,
    index: u64,
    servers: Seq<ServerView>,
)
    requires
        call_ensures(
            RaftCore::scan_configurations::<L, D>,
            (core, logs, decode),
            Ok::<(), Fatal>(()),
        ),
        old(core)@.shared.last_snapshot.0 < index,
        old(core)@.shared.last_applied < index,
        index <= old(core)@.shared.last_log.0,
        logs.entries()[index].log_type == LogType::Configuration,
        logs.entries()[index].index == index,
        forall|i: u64|
            index < i <= old(core)@.shared.last_log.0 ==> (#[trigger] logs.entries()[i]).log_type
                != LogType::Configuration,
        forall|data: Vec<u8>, found: Option<Configuration>| #[trigger]
            call_ensures(decode, (&data,), found) && data@ == logs.entries()[index].data ==> (found
                matches Some(conf) && conf@ == servers),
    ensures
        final(core)@.configurations.latest == servers,
        final(core)@.configurations.latest_index == index,
        final(core)@.readable == servers,
        final(core)@.shared == old(core)@.shared,
{
    let n = old(core)@;
    let entries = unsettled_entries(n, logs.entries());
    let first = crate::api::settled_index(n) + 1;
    let decoded = choose|decoded: Seq<Option<Configuration>>|
        #[trigger] crate::api::decodes_all(decode, entries, decoded) && final(core)@
            == crate::append::with_log_entries(n, entries, decoded_views(decoded));
    let j = index - first;
    assert(entries[j] == logs.entries()[index]);
    assert(crate::api::decodes(decode, entries[j], decoded[j]));
    assert(decoded_views(decoded)[j] == Some(servers));
    assert forall|a: int| j < a < entries.len() implies (#[trigger] entries[a]).log_type
        != LogType::Configuration by {
        assert(entries[a] == logs.entries()[(first + a) as u64]);
    }
    lemma_last_configuration_counts(n, entries, decoded_views(decoded), j);
    lemma_with_log_entries_keeps_shared(n, entries, decoded_views(decoded));
}

/// A commit index that was staged is given back.
pub proof fn law_staged_commit_index_is_given_back(
    store: &mut InmemCommitTrackingStore,
    index: u64,
    r: Result<()>,
    read: Result<u64>,
)
    requires
        call_ensures(InmemCommitTrackingStore::stage_commit_index, (store, index), r),
        call_ensures(InmemCommitTrackingStore::get_commit_index, (&*final(store),), read),
    ensures
        read matches Ok(given) && given == index,
{
}

/// Bytes that were set are read back under their key, and no other key is
/// touched.
pub proof fn law_set_bytes_are_read_back(
    store: &mut InmemStore,
    key: &[u8],
    val: &[u8],
    r: Result<()>,
    other: &[u8],
    read: Result<Option<Vec<u8>>>,
    before: Result<Option<Vec<u8>>>,
)
    requires
        call_ensures(InmemStore::set, (store, key, val), r),
        call_ensures(InmemStore::get, (&*old(store), other), before),
        call_ensures(InmemStore::get, (&*final(store), other), read),
    ensures
        r is Ok,
        other@ == key@ ==> (read matches Ok(Some(v)) && v@ == val@),
        other@ != key@ ==> (read->Ok_0 is Some <==> before->Ok_0 is Some) && (read->Ok_0 is Some
            ==> read->Ok_0->Some_0@ == before->Ok_0->Some_0@),
{
}

/// A copy of a snapshot counts only where all of it was written.
pub proof fn law_only_complete_copies_count(spill: Spill, r: Result<String>)
    requires
        call_ensures(installed_copy, (spill,), r),
    ensures
        r is Ok <==> spill is Written,
        spill matches Spill::Written(id) ==> r == Ok::<String, RaftError>(id),
{
}

/// The same holds of a snapshot that a user restores.
pub proof fn law_only_complete_restores_count(spill: Spill, size: u64, r: Result<String>)
    requires
        call_ensures(restored_copy, (spill, size), r),
    ensures
        r is Ok <==> spill is Written,
        spill matches Spill::Written(id) ==> r == Ok::<String, RaftError>(id),
{
}

/// A snapshot is written only where as much came as was announced.
pub proof fn law_short_snapshots_are_not_kept<N: SnapshotStore>(
    store: &mut N,
    plan: &SnapshotPlan,
    data: &[u8],
    size: u64,
    r: Spill,
)
    requires
        call_ensures(spill_snapshot::<N>, (store, plan, data, size), r),
    ensures
        r is Written ==> data@.len() == size,
        r matches Spill::WrongSize(n) ==> n == data@.len() && n != size,
{
}

/// An installed snapshot trims the log by what it covers and what need not
/// trail, and so does one that was taken.
pub proof fn law_snapshots_trim_the_log(
    core: &mut RaftCore,
    logs: &mut InmemStore,
    index: u64,
    term: u64,
    r: Result<()>,
    i: u64,
)
    requires
        call_ensures(RaftCore::finish_snapshot::<InmemStore>, (core, logs, index, term), r),
    ensures
        r is Ok,
        ({
            let last_log = old(core)@.shared.last_log.0;
            let trailing = old(core)@.conf.trailing_logs;
            let first = old(logs).bounds().0;
            final(logs).held().contains_key(i) <==> old(logs).held().contains_key(i) && !(first <= i
                <= index && last_log > trailing && i <= last_log - trailing)
        }),
{
}

/// A snapshot that was shipped trims the log likewise.
pub proof fn law_shipped_snapshots_trim_the_log(
    core: &mut RaftCore,
    logs: &mut InmemStore,
    req: &InstallSnapshotRequest,
    configuration: Configuration,
    now: Instant,
    r: InstallSnapshotResponse,
    i: u64,
)
    requires
        call_ensures(
            RaftCore::finish_install::<InmemStore>,
            (core, logs, req, configuration, now),
            r,
        ),
    ensures
        ({
            let last_log = old(core)@.shared.last_log.0;
            let trailing = old(core)@.conf.trailing_logs;
            let first = old(logs).bounds().0;
            final(logs).held().contains_key(i) <==> old(logs).held().contains_key(i) && !(first <= i
                <= req.last_log_index && last_log > trailing && i <= last_log - trailing)
        }),
{
}

/// A store of files keeps one snapshot at least, and begins each as it is told.
pub proof fn law_begun_snapshots_are_as_told<P>(
    store: &FileSnapshotStore<P>,
    version: u8,
    index: u64,
    term: u64,
    configuration: &Configuration,
    configuration_index: u64,
    r: Result<FileSnapshotSink>,
)
    requires
        call_ensures(
            FileSnapshotStore::<P>::begin,
            (store, version, index, term, configuration, configuration_index),
            r,
        ),
    ensures
        r is Ok <==> version == 1,
        r matches Ok(sink) ==> !sink.closed && sink.meta@.meta.index == index
            && sink.meta@.meta.term == term && sink.meta@.meta.configuration == configuration@
            && sink.meta@.meta.configuration_index == configuration_index && sink.meta@.meta.size
            == 0,
{
}

/// A store of files that would keep nothing is refused.
pub proof fn law_some_snapshot_is_kept<P>(path: P, retain: usize, r: Result<FileSnapshotStore<P>>)
    requires
        call_ensures(FileSnapshotStore::<P>::new, (path, retain), r),
    ensures
        r is Ok <==> retain >= 1,
        r matches Ok(store) ==> store.kept() == retain,
{
}

/// A range that may go begins at the first entry, lies within the snapshot and
/// leaves the entries that trail; there is none where nothing would go.
pub proof fn law_compacted_range_is_dispensable(
    core: &RaftCore,
    first: u64,
    snap_idx: u64,
    r: Option<(u64, u64)>,
    i: u64,
)
    requires
        call_ensures(RaftCore::range_to_compact, (core, first, snap_idx), r),
    ensures
        (r matches Some((low, high)) && low <= i <= high) <==> first <= i <= snap_idx
            && core@.shared.last_log.0 > core@.conf.trailing_logs && i <= core@.shared.last_log.0
            - core@.conf.trailing_logs,
{
}

/// A node that adopts a snapshot stands where the snapshot was taken, with the
/// snapshot's membership, which counts as committed.
pub proof fn law_adopted_snapshot_is_where_a_node_stands(core: &mut RaftCore, meta: &SnapshotMeta)
    requires
        call_ensures(RaftCore::adopt_snapshot, (core, meta), ()),
    ensures
        final(core)@.shared.last_applied == meta.index,
        final(core)@.shared.last_snapshot == (meta.index, meta.term),
        final(core)@.configurations.latest == meta.configuration@,
        final(core)@.configurations.latest_index == meta.configuration_index,
        final(core)@.configurations.committed == meta.configuration@,
        final(core)@.configurations.committed_index == meta.configuration_index,
        final(core)@.shared.last_log == old(core)@.shared.last_log,
        final(core)@.shared.current_term == old(core)@.shared.current_term,
{
}

/// A start restores from one of the snapshots that are listed, and from the
/// newest where the machine need not be restored.
pub proof fn law_start_restores_a_listed_snapshot<F: FSM, N: SnapshotStore<Reader = F::Reader>>(
    core: &mut RaftCore,
    fsm: &mut F,
    snaps: &N,
    metas: &Vec<SnapshotMeta>,
    r: Result<()>,
)
    requires
        call_ensures(RaftCore::restore_snapshot::<F, N>, (core, fsm, snaps, metas), r),
    ensures
        metas@.len() == 0 ==> r is Ok && final(core)@ == old(core)@,
        r is Err ==> final(core)@ == old(core)@,
        metas@.len() > 0 && r is Ok ==> exists|k: int|
            0 <= k < metas@.len() && final(core)@.shared.last_snapshot == (
                (#[trigger] metas@[k]).index,
                metas@[k].term,
            ) && final(core)@.shared.last_applied == metas@[k].index
                && final(core)@.configurations.latest == metas@[k].configuration@
                && final(core)@.configurations.committed == metas@[k].configuration@,
        metas@.len() > 0 && old(core)@.conf.no_snapshot_restore_on_start
            ==> r is Ok && final(core)@.shared.last_snapshot == (metas@[0].index, metas@[0].term),
{
    if metas@.len() > 0 && old(core)@.conf.no_snapshot_restore_on_start {
        assert(final(core)@ == adopted(old(core)@, metas@[0]@));
    }
}

/// What is told of a node is what it is: its role, term, progress and how many
/// other servers it reads of.
pub proof fn law_statistics_tell_what_a_node_is(
    raft: &Raft,
    membership: String,
    r: Vec<(String, String)>,
)
    requires
        call_ensures(Raft::stats, (raft, membership), r),
    ensures
        r@.len() == 12,
        r@[0].0@ == "state"@,
        raft.core@.shared.state == RaftState::Leader ==> r@[0].1@ == "Leader"@,
        raft.core@.shared.state == RaftState::Follower ==> r@[0].1@ == "Follower"@,
        raft.core@.shared.state == RaftState::Candidate ==> r@[0].1@ == "Candidate"@,
        r@[1].0@ == "term"@ && r@[1].1@ == decimal(raft.core@.shared.current_term as nat),
        r@[2].0@ == "last_log_index"@ && r@[2].1@ == decimal(raft.core@.shared.last_log.0 as nat),
        r@[3].0@ == "last_log_term"@ && r@[3].1@ == decimal(raft.core@.shared.last_log.1 as nat),
        r@[4].0@ == "commit_index"@ && r@[4].1@ == decimal(raft.core@.shared.commit_index as nat),
        r@[5].0@ == "applied_index"@ && r@[5].1@ == decimal(raft.core@.shared.last_applied as nat),
        r@[6].0@ == "last_snapshot_index"@ && r@[6].1@ == decimal(
            raft.core@.shared.last_snapshot.0 as nat,
        ),
        r@[7].0@ == "last_snapshot_term"@ && r@[7].1@ == decimal(
            raft.core@.shared.last_snapshot.1 as nat,
        ),
        r@[9].0@ == "latest_configuration_index"@ && r@[9].1@ == decimal(
            raft.core@.readable_index as nat,
        ),
        r@[10].0@ == "latest_configuration"@ && r@[10].1@ == membership@,
        r@[11].0@ == "num_peers"@ && r@[11].1@ == decimal(
            Set::new(
                |p: int|
                    0 <= p < raft.core@.readable.len() && raft.core@.readable[p].id
                        != raft.core@.local_id,
            ).len(),
        ),
{
    let n = raft.core@;
    let pairs = text_pairs(r@);
    assert(pairs.len() == 12);
    assert forall|i: int| 0 <= i < 12 implies #[trigger] pairs[i] == (r@[i].0@, r@[i].1@) by {}
    assert(pairs[0] == (r@[0].0@, r@[0].1@));
    assert(pairs[1] == (r@[1].0@, r@[1].1@));
    assert(pairs[2] == (r@[2].0@, r@[2].1@));
    assert(pairs[3] == (r@[3].0@, r@[3].1@));
    assert(pairs[4] == (r@[4].0@, r@[4].1@));
    assert(pairs[5] == (r@[5].0@, r@[5].1@));
    assert(pairs[6] == (r@[6].0@, r@[6].1@));
    assert(pairs[7] == (r@[7].0@, r@[7].1@));
    assert(pairs[9] == (r@[9].0@, r@[9].1@));
    assert(pairs[10] == (r@[10].0@, r@[10].1@));
    assert(pairs[11] == (r@[11].0@, r@[11].1@));
    lemma_peers_by_position(n.readable, n.local_id);
    assert(positions(n.readable, |s: ServerView| s.id != n.local_id) =~= Set::new(
        |p: int| 0 <= p < n.readable.len() && n.readable[p].id != n.local_id,
    ));
}

proof fn lemma_peers_by_position(servers: Seq<ServerView>, local: Seq<char>)
    ensures
        positions(servers, |s: ServerView| s.id != local).finite(),
        positions(servers, |s: ServerView| s.id != local).len() == peer_count(servers, local),
    decreases servers.len(),
{
    let peer = |s: ServerView| s.id != local;
    if servers.len() == 0 {
        assert(positions(servers, peer) =~= Set::empty());
    } else {
        lemma_peers_by_position(servers.drop_last(), local);
        lemma_positions_step(servers, peer);
    }
}

proof fn lemma_last_is_highest(bounds: (u64, u64), logs: Seq<LogView>, i: int)
    ensures
        bounds_after_store(bounds, logs).1 >= bounds.1,
        0 <= i < logs.len() ==> bounds_after_store(bounds, logs).1 >= logs[i].index,
        bounds_after_store(bounds, logs).1 == bounds.1 || exists|k: int|
            0 <= k < logs.len() && (#[trigger] logs[k]).index == bounds_after_store(bounds, logs).1,
        bounds.0 != 0 ==> bounds_after_store(bounds, logs).0 == bounds.0,
        bounds.0 == 0 && logs.len() > 0 && logs[0].index > 0 ==> bounds_after_store(bounds, logs).0
            == logs[0].index,
    decreases logs.len(),
{
    if logs.len() > 0 {
        let front = logs.drop_last();
        lemma_last_is_highest(bounds, front, i);
        if bounds_after_store(bounds, front).1 != bounds.1 {
            let k = choose|k: int|
                0 <= k < front.len() && (#[trigger] front[k]).index == bounds_after_store(
                    bounds,
                    front,
                ).1;
            assert(logs[k].index == front[k].index);
        }
        assert(logs[logs.len() - 1] == logs.last());
    }
}

/// After entries were stored the last index is the highest that was ever
/// stored, and the first index stays, or is that of the first entry stored in
/// an empty store.
pub proof fn law_last_index_is_the_highest(
    store: &mut InmemStore,
    logs: &Vec<Log>,
    r: Result<()>,
    first_before: Result<u64>,
    last_before: Result<u64>,
    first: Result<u64>,
    last: Result<u64>,
    i: int,
)
    requires
        call_ensures(InmemStore::first_index, (&*old(store),), first_before),
        call_ensures(InmemStore::last_index, (&*old(store),), last_before),
        call_ensures(InmemStore::store_logs, (store, logs), r),
        call_ensures(InmemStore::first_index, (&*final(store),), first),
        call_ensures(InmemStore::last_index, (&*final(store),), last),
    ensures
        last->Ok_0 >= last_before->Ok_0,
        0 <= i < logs@.len() ==> last->Ok_0 >= logs@[i].index,
        last->Ok_0 == last_before->Ok_0 || exists|k: int|
            0 <= k < logs@.len() && (#[trigger] logs@[k]).index == last->Ok_0,
        first_before->Ok_0 != 0 ==> first->Ok_0 == first_before->Ok_0,
        first_before->Ok_0 == 0 && logs@.len() > 0 && logs@[0].index > 0 ==> first->Ok_0
            == logs@[0].index,
{
    let views = log_views(logs@);
    lemma_last_is_highest(old(store).bounds(), views, i);
    if 0 <= i < logs@.len() {
        assert(views[i] == logs@[i]@);
    }
    if logs@.len() > 0 {
        assert(views[0] == logs@[0]@);
    }
    if last->Ok_0 != last_before->Ok_0 {
        let k = choose|k: int| 0 <= k < views.len() && (#[trigger] views[k]).index == last->Ok_0;
        assert(logs@[k].index == last->Ok_0);
    }
}

/// A store without gaps that loses a range at either end tells exactly what it
/// still holds.
pub proof fn law_bounds_tell_what_is_left(
    store: &mut InmemStore,
    min: u64,
    max: u64,
    r: Result<()>,
    first: Result<u64>,
    last: Result<u64>,
    i: u64,
)
    requires
        ({
            let (low, high) = old(store).bounds();
            &&& 0 < low <= high
            &&& forall|k: u64| #[trigger]
                old(store).held().contains_key(k) <==> low <= k <= high
            &&& 0 < min <= max
            &&& min <= low <= max || (low <= min <= high && max >= high)
        }),
        call_ensures(InmemStore::delete_range, (store, min, max), r),
        call_ensures(InmemStore::first_index, (&*final(store),), first),
        call_ensures(InmemStore::last_index, (&*final(store),), last),
    ensures
        first->Ok_0 > 0 ==> (final(store).held().contains_key(i) <==> first->Ok_0 <= i
            <= last->Ok_0),
        first->Ok_0 == 0 ==> last->Ok_0 == 0 && !final(store).held().contains_key(i),
{
    law_trimming_keeps_the_bounds_right(old(store).held(), old(store).bounds(), min, max);
}

proof fn lemma_memberships_do_not_move(from: (u64, u64), batch: Seq<CommitView>, k: int)
    requires
        0 <= k <= batch.len(),
        forall|i: int| k <= i < batch.len() ==> (#[trigger] batch[i]).log.log_type
            == LogType::Configuration,
    ensures
        position_after(from, batch, false, false) == position_after(
            from,
            batch.take(k),
            false,
            false,
        ),
    decreases batch.len(),
{
    if k == batch.len() {
        assert(batch.take(k) =~= batch);
    } else {
        let front = batch.drop_last();
        assert(batch[batch.len() - 1].log.log_type == LogType::Configuration);
        assert(front.take(k) =~= batch.take(k));
        lemma_memberships_do_not_move(from, front, k);
    }
}

/// A machine that takes entries one by one and keeps no memberships stands at
/// the last entry that is none, and where it stood if there is no such entry.
pub proof fn law_memberships_do_not_move_the_machine<F: BatchingFSM + ConfigurationStore>(
    runner: &mut FsmRunner,
    fsm: &mut F,
    batch: &Vec<CommitTuple>,
    decoded: &Vec<Option<Configuration>>,
    r: Vec<Applied<F::Response>>,
    k: int,
)
    requires
        call_ensures(FsmRunner::apply_commit::<F>, (runner, fsm, batch, decoded), r),
        !F::batches(),
        !F::stores(),
        0 <= k <= batch@.len(),
        k > 0 ==> batch@[k - 1].log.log_type != LogType::Configuration,
        forall|i: int| k <= i < batch@.len() ==> (#[trigger] batch@[i]).log.log_type
            == LogType::Configuration,
    ensures
        k > 0 ==> final(runner).last_index == batch@[k - 1].log.index && final(runner).last_term
            == batch@[k - 1].log.term,
        k == 0 ==> final(runner).last_index == old(runner).last_index && final(runner).last_term
            == old(runner).last_term,
{
    let views = commit_views(batch@);
    assert forall|i: int| k <= i < views.len() implies (#[trigger] views[i]).log.log_type
        == LogType::Configuration by {
        assert(batch@[i].log.log_type == LogType::Configuration);
    }
    lemma_memberships_do_not_move(old(runner).position(), views, k);
    if k > 0 {
        assert(views.take(k).last() == batch@[k - 1]@);
    }
}

proof fn lemma_nothing_to_take_up(
    n: NodeView,
    entries: Seq<LogView>,
    decoded: Seq<Option<Seq<ServerView>>>,
)
    requires
        entries.len() == decoded.len(),
        forall|i: int| 0 <= i < entries.len() ==> (#[trigger] entries[i]).log_type
            != LogType::Configuration,
    ensures
        with_log_entries(n, entries, decoded) == n,
    decreases entries.len(),
{
    if entries.len() > 0 {
        assert(entries[entries.len() - 1].log_type != LogType::Configuration);
        lemma_nothing_to_take_up(n, entries.drop_last(), decoded.drop_last());
    }
}

/// What a snapshot settled or what was applied is not gone through again: a
/// node whose log holds no membership beyond that keeps the one it has.
pub proof fn law_settled_memberships_stay<
    L: LogStore,
    D: Fn(&Vec<u8>) -> Option<Configuration>,
>(core: &mut RaftCore, logs: &L, decode: &D)
    requires
        call_ensures(
            RaftCore::scan_configurations::<L, D>,
            (core, logs, decode),
            Ok::<(), Fatal>(()),
        ),
        forall|i: u64|
            old(core)@.shared.last_snapshot.0 < i && old(core)@.shared.last_applied < i
                <= old(core)@.shared.last_log.0 ==> (#[trigger] logs.entries()[i]).log_type
                != LogType::Configuration,
    ensures
        final(core)@ == old(core)@,
{
    let n = old(core)@;
    let entries = unsettled_entries(n, logs.entries());
    let first = crate::api::settled_index(n) + 1;
    let decoded = choose|decoded: Seq<Option<Configuration>>| #[trigger]
        crate::api::decodes_all(decode, entries, decoded) && final(core)@ == with_log_entries(
            n,
            entries,
            decoded_views(decoded),
        );
    assert forall|a: int| 0 <= a < entries.len() implies (#[trigger] entries[a]).log_type
        != LogType::Configuration by {
        assert(entries[a] == logs.entries()[(first + a) as u64]);
    }
    lemma_nothing_to_take_up(n, entries, decoded_views(decoded));
}

} // verus!
