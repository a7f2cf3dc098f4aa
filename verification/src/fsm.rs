//! The state machine that clients provide, and how committed entries,
//! snapshots and restores reach it.

use crate::append::decoded_views;
use crate::apply::{commit_views, CommitTuple, CommitView};
use crate::configuration::{Configuration, ServerView};
use crate::error::{step_text, RaftError, Result};
use crate::future::ApplyOutcome;
use crate::log::{log_views, Log, LogType, LogView};
use crate::snapshot::{failed_step, SnapshotMeta, SnapshotStarted, SnapshotStore};
use crate::text::joined;
use vstd::prelude::*;

verus! {

/// What was asked of a machine since it was made.
pub struct Trace<R, S> {
    /// The entries that it applied.
    pub applied: Seq<LogView>,
    /// What it answered for each of them.
    pub answers: Seq<Result<R>>,
    /// The configurations that it was given to store, each with its index.
    pub stored: Seq<(u64, Seq<ServerView>)>,
    /// The snapshots that it was given to restore, each with whether it did.
    pub restored: Seq<(S, bool)>,
}

/// Implemented by clients to make use of the replicated log.
pub trait FSM {
    /// What an applied entry gives back to the client.
    type Response;

    /// A snapshot of the machine.
    type Snapshot: FSMSnapshot;

    /// What a snapshot is restored from.
    type Reader;

    /// What was asked of the machine.
    closed spec fn trace(&self) -> Trace<Self::Response, Self::Reader> {
        arbitrary()
    }

    /// Called once a log entry is committed by a majority of the cluster.
    ///
    /// Must be deterministic and produce the same result on all peers. The
    /// returned value is handed back to the client.
    fn apply(&mut self, log: &Log) -> (r: Result<Self::Response>)
        ensures
            final(self).trace() == (Trace {
                applied: old(self).trace().applied.push(log@),
                answers: old(self).trace().answers.push(r),
                ..old(self).trace()
            }),
    ;

    /// Returns a snapshot used to support log compaction, to restore the FSM
    /// to a previous state, or to bring out-of-date followers up to a recent
    /// log index.
    ///
    /// Should return quickly; expensive IO belongs in
    /// [`FSMSnapshot::persist`].
    fn snapshot(&mut self) -> (r: Result<Self::Snapshot>)
        ensures
            final(self).trace() == old(self).trace(),
    ;

    /// Restores an FSM from a snapshot. The FSM must discard all previous
    /// state before restoring.
    fn restore(&mut self, snapshot: Self::Reader) -> (r: Result<()>)
        ensures
            final(self).trace() == (Trace {
                restored: old(self).trace().restored.push((snapshot, r is Ok)),
                ..old(self).trace()
            }),
    ;
}

/// Optional extension of [`FSM`] that applies multiple committed logs in one
/// batch.
pub trait BatchingFSM: FSM {
    /// Whether machines of this type want batches.
    open spec fn batches() -> bool {
        false
    }

    /// Whether machines of this type want batches.
    fn is_batching() -> (r: bool)
        ensures
            r == Self::batches(),
    ;

    /// Applies a batch of committed log entries, in commit order and without
    /// gaps. Only `LogType::Command` and `LogType::Configuration` logs are
    /// sent.
    ///
    /// The returned vector must be the same length as the input; each
    /// response corresponds to the log at the same index of the input.
    fn apply_batch(&mut self, logs: &Vec<Log>) -> (r: Vec<Result<Self::Response>>)
        ensures
            r@.len() == logs@.len(),
            final(self).trace() == (Trace {
                applied: old(self).trace().applied + log_views(logs@),
                answers: old(self).trace().answers + r@,
                ..old(self).trace()
            }),
    ;
}

/// Returned by an FSM in response to [`FSM::snapshot`].
pub trait FSMSnapshot {
    /// Dumps all necessary state to the sink, finishing with a close on
    /// success or a cancel on error.
    fn persist<N: SnapshotStore>(&self, store: &mut N, sink: N::Sink) -> Result<()>;

    /// Invoked when the snapshot is no longer needed. Always called, even if
    /// `persist` never was.
    fn release(&self);
}

/// Optional extension for FSMs that want to persist committed configuration
/// entries.
pub trait ConfigurationStore: FSM {
    /// Whether machines of this type want configurations.
    open spec fn stores() -> bool {
        false
    }

    /// Whether machines of this type want configurations.
    fn stores_configurations() -> (r: bool)
        ensures
            r == Self::stores(),
    ;

    /// Stores a configuration that was committed at the given log index.
    fn store_configuration(&mut self, index: u64, configuration: Configuration)
        ensures
            final(self).trace() == (Trace {
                stored: old(self).trace().stored.push((index, configuration@)),
                ..old(self).trace()
            }),
    ;
}

/// What becomes of a snapshot, by what came of persisting it: a failure is
/// named as one of that step.
pub open spec fn persisted_as(persisted: Result<()>, r: Result<()>) -> bool {
    match persisted {
        Ok(()) => r is Ok,
        Err(e) => r matches Err(RaftError::Other(text))
            && step_text("failed to persist snapshot: "@, e, text@),
    }
}

/// What becomes of a snapshot, by what came of persisting it.
pub fn persist_outcome(persisted: Result<()>) -> (r: Result<()>)
    ensures
        persisted_as(persisted, r),
{
    match persisted {
        Ok(()) => Ok(()),
        Err(e) => Err(failed_step("failed to persist snapshot: ", &e)),
    }
}

/// Persists a snapshot and releases it, whatever came of that.
pub fn persist_and_release<P: FSMSnapshot, N: SnapshotStore>(
    snapshot: P,
    store: &mut N,
    sink: N::Sink,
) -> (r: Result<()>)
    ensures
        exists|st: &mut N, persisted: Result<()>|
            {
                &&& *st == *old(store)
                &&& #[trigger] call_ensures(P::persist::<N>, (&snapshot, st, sink), persisted)
                &&& *final(st) == *final(store)
                &&& persisted_as(persisted, r)
            },
        call_ensures(P::release, (&snapshot,), ()),
{
    let persisted = snapshot.persist(store, sink);
    snapshot.release();
    persist_outcome(persisted)
}

/// An answer to the client that holds a ticket.
#[derive(Debug)]
pub struct Applied<R> {
    pub ticket: u64,
    pub outcome: ApplyOutcome<Result<R>>,
}

/// Whether an entry is applied by a machine that takes entries one by one.
pub open spec fn applied_singly(log: LogView) -> bool {
    log.log_type == LogType::Command
}

/// Whether an entry is sent to a machine that takes batches.
pub open spec fn sent_in_batch(log: LogView) -> bool {
    log.log_type == LogType::Command || log.log_type == LogType::Configuration
}

/// Whether an entry gets as far as the machine.
pub open spec fn reaches_fsm(log: LogView, batching: bool) -> bool {
    if batching {
        sent_in_batch(log)
    } else {
        applied_singly(log)
    }
}

/// The entries of these that the machine applies, in order.
pub open spec fn fsm_entries(batch: Seq<CommitView>, batching: bool) -> Seq<LogView>
    decreases batch.len(),
{
    if batch.len() == 0 {
        Seq::empty()
    } else {
        let before = fsm_entries(batch.drop_last(), batching);
        if reaches_fsm(batch.last().log, batching) {
            before.push(batch.last().log)
        } else {
            before
        }
    }
}

/// Whether an entry moves the machine's position on: a configuration that a
/// machine does not want leaves it, where entries are taken one by one.
pub open spec fn moves_position(log: LogView, batching: bool, stores: bool) -> bool {
    batching || stores || log.log_type != LogType::Configuration
}

/// The position of the machine, as index and term, after these entries.
pub open spec fn position_after(
    from: (u64, u64),
    batch: Seq<CommitView>,
    batching: bool,
    stores: bool,
) -> (u64, u64)
    decreases batch.len(),
{
    if batch.len() == 0 {
        from
    } else if moves_position(batch.last().log, batching, stores) {
        (batch.last().log.index, batch.last().log.term)
    } else {
        position_after(from, batch.drop_last(), batching, stores)
    }
}

/// The configurations among these entries that the machine is given to store,
/// where it wants them and entries are taken one by one.
pub open spec fn configurations_stored(
    batch: Seq<CommitView>,
    decoded: Seq<Option<Seq<ServerView>>>,
) -> Seq<(u64, Seq<ServerView>)>
    decreases batch.len(),
{
    if batch.len() == 0 {
        Seq::empty()
    } else {
        let before = configurations_stored(batch.drop_last(), decoded.drop_last());
        match decoded.last() {
            Some(conf) => if batch.last().log.log_type == LogType::Configuration {
                before.push((batch.last().log.index, conf))
            } else {
                before
            },
            None => before,
        }
    }
}

/// The answers to the clients that wait for these entries, given what the
/// machine answered for the entries that it got: each client gets the index of
/// its entry, and the answer to it where there is one.
pub open spec fn client_answers<R>(
    batch: Seq<CommitView>,
    given: Seq<Result<R>>,
    batching: bool,
) -> Seq<Applied<R>>
    decreases batch.len(),
{
    if batch.len() == 0 {
        Seq::empty()
    } else {
        let front = batch.drop_last();
        let c = batch.last();
        let before = client_answers(front, given, batching);
        match c.ticket {
            Some(ticket) => before.push(
                Applied {
                    ticket,
                    outcome: ApplyOutcome {
                        index: c.log.index,
                        response: if reaches_fsm(c.log, batching) {
                            Some(given[fsm_entries(front, batching).len() as int])
                        } else {
                            None
                        },
                    },
                },
            ),
            None => before,
        }
    }
}

/// Whether a machine was given a batch of committed entries, with the
/// configurations that their data decode to, and the clients were answered
/// with what it made of them.
pub open spec fn batch_applied<R, S>(
    before: Trace<R, S>,
    batch: Seq<CommitView>,
    decoded: Seq<Option<Seq<ServerView>>>,
    batching: bool,
    stores: bool,
    answered: Seq<Applied<R>>,
    after: Trace<R, S>,
) -> bool {
    let given = after.answers.skip(before.answers.len() as int);
    &&& given.len() == fsm_entries(batch, batching).len()
    &&& answered == client_answers(batch, given, batching)
    &&& after.applied == before.applied + fsm_entries(batch, batching)
    &&& after.answers == before.answers + given
    &&& after.stored == if stores && !batching {
        before.stored + configurations_stored(batch, decoded)
    } else {
        before.stored
    }
    &&& after.restored == before.restored
}

/// How far a state machine has come.
#[derive(Debug, Clone, Copy, PartialEq, Eq, Structural)]
pub struct FsmRunner {
    pub last_index: u64,
    pub last_term: u64,
}

impl FsmRunner {
    /// The position as index and term.
    pub open spec fn position(&self) -> (u64, u64) {
        (self.last_index, self.last_term)
    }

    /// A machine to which nothing was applied.
    pub fn new() -> (r: Self)
        ensures
            r.position() == (0u64, 0u64),
    {
        FsmRunner { last_index: 0, last_term: 0 }
    }

    /// Applies a single committed log. `decoded` is the configuration that
    /// the entry's data decodes to, if any. An error of the machine is its
    /// response.
    fn apply_single<F: BatchingFSM + ConfigurationStore>(
        &mut self,
        fsm: &mut F,
        ct: &CommitTuple,
        decoded: &Option<Configuration>,
    ) -> (r: Option<Applied<F::Response>>)
        ensures
            final(self).position() == if moves_position(ct@.log, false, F::stores()) {
                (ct@.log.index, ct@.log.term)
            } else {
                old(self).position()
            },
            if reaches_fsm(ct@.log, false) {
                &&& final(fsm).trace().answers.len() == old(fsm).trace().answers.len() + 1
                &&& final(fsm).trace() == (Trace {
                    applied: old(fsm).trace().applied.push(ct@.log),
                    answers: old(fsm).trace().answers.push(final(fsm).trace().answers.last()),
                    ..old(fsm).trace()
                })
            } else if ct@.log.log_type == LogType::Configuration && F::stores()
                && decoded is Some {
                final(fsm).trace() == (Trace {
                    stored: old(fsm).trace().stored.push((ct@.log.index, decoded->Some_0@)),
                    ..old(fsm).trace()
                })
            } else {
                final(fsm).trace() == old(fsm).trace()
            },
            match ct@.ticket {
                Some(ticket) => r == Some(
                    Applied {
                        ticket,
                        outcome: ApplyOutcome {
                            index: ct@.log.index,
                            response: if reaches_fsm(ct@.log, false) {
                                Some(final(fsm).trace().answers.last())
                            } else {
                                None
                            },
                        },
                    },
                ),
                None => r is None,
            },
    {
        let mut response: Option<Result<F::Response>> = None;
        let mut moves = true;
        match ct.log.log_type {
            LogType::Command => {
                response = Some(fsm.apply(&ct.log));
            },
            LogType::Configuration => {
                if F::stores_configurations() {
                    match decoded {
                        Some(conf) => {
                            fsm.store_configuration(ct.log.index, conf.clone());
                        },
                        None => {},
                    }
                } else {
                    // Nobody wants the configuration: answer without
                    // applying and without moving on.
                    moves = false;
                }
            },
            // Barriers and no-ops carry no payload.
            _ => {},
        }
        if moves {
            self.last_index = ct.log.index;
            self.last_term = ct.log.term;
        }
        match ct.ticket {
            Some(ticket) => Some(
                Applied { ticket, outcome: ApplyOutcome { index: ct.log.index, response } },
            ),
            None => None,
        }
    }

    /// Applies a batch of committed logs one by one.
    fn apply_each<F: BatchingFSM + ConfigurationStore>(
        &mut self,
        fsm: &mut F,
        batch: &Vec<CommitTuple>,
        decoded: &Vec<Option<Configuration>>,
    ) -> (r: Vec<Applied<F::Response>>)
        requires
            batch@.len() == decoded@.len(),
        ensures
            batch_applied(
                old(fsm).trace(),
                commit_views(batch@),
                decoded_views(decoded@),
                false,
                F::stores(),
                r@,
                final(fsm).trace(),
            ),
            final(self).position() == position_after(
                old(self).position(),
                commit_views(batch@),
                false,
                F::stores(),
            ),
    {
        let ghost views = commit_views(batch@);
        let ghost confs = decoded_views(decoded@);
        let ghost base = fsm.trace();
        let ghost mut given: Seq<Result<F::Response>> = Seq::empty();
        let mut answered: Vec<Applied<F::Response>> = Vec::new();
        let mut i: usize = 0;
        proof {
            assert(views.take(0) =~= Seq::empty());
            assert(confs.take(0) =~= Seq::empty());
            assert(base.applied + fsm_entries(views.take(0), false) =~= base.applied);
            assert(base.answers + given =~= base.answers);
            assert(base.stored + configurations_stored(views.take(0), confs.take(0))
                =~= base.stored);
        }
        while i < batch.len()
            invariant
                i <= batch@.len(),
                batch@.len() == decoded@.len(),
                views == commit_views(batch@),
                confs == decoded_views(decoded@),
                base == old(fsm).trace(),
                given.len() == fsm_entries(views.take(i as int), false).len(),
                answered@ == client_answers(views.take(i as int), given, false),
                fsm.trace().applied == base.applied + fsm_entries(views.take(i as int), false),
                fsm.trace().answers == base.answers + given,
                fsm.trace().stored == if F::stores() {
                    base.stored + configurations_stored(
                        views.take(i as int),
                        confs.take(i as int),
                    )
                } else {
                    base.stored
                },
                fsm.trace().restored == base.restored,
                self.position() == position_after(
                    old(self).position(),
                    views.take(i as int),
                    false,
                    F::stores(),
                ),
            decreases batch@.len() - i,
        {
            let ghost seen = views.take(i as int);
            let ghost now = views.take(i + 1);
            let ghost confs_now = confs.take(i + 1);
            let ghost entries = fsm_entries(seen, false);
            let ghost stored = configurations_stored(seen, confs.take(i as int));
            let ghost given_before = given;
            proof {
                assert(now.drop_last() =~= seen);
                assert(now.last() == batch@[i as int]@);
                assert(confs_now.drop_last() =~= confs.take(i as int));
                assert(confs_now.last() == confs[i as int]);
                assert((base.applied + entries).push(now.last().log) =~= base.applied
                    + entries.push(now.last().log));
            }
            let answer = self.apply_single(fsm, &batch[i], &decoded[i]);
            proof {
                if reaches_fsm(now.last().log, false) {
                    let x = fsm.trace().answers.last();
                    given = given.push(x);
                    assert((base.answers + given_before).push(x) =~= base.answers + given);
                    lemma_later_answers_do_not_matter(seen, given_before, seq![x], false);
                    assert(given_before + seq![x] =~= given);
                } else if decoded@[i as int] is Some {
                    let c = (now.last().log.index, confs_now.last()->Some_0);
                    assert((base.stored + stored).push(c) =~= base.stored + stored.push(c));
                }
            }
            match answer {
                Some(a) => {
                    answered.push(a);
                },
                None => {},
            }
            i += 1;
        }
        proof {
            assert(views.take(i as int) =~= views);
            assert(confs.take(i as int) =~= confs);
            assert(fsm.trace().answers.skip(base.answers.len() as int) =~= given);
        }
        answered
    }

    /// Applies a batch of committed logs in one call; barriers are not sent.
    fn apply_together<F: BatchingFSM + ConfigurationStore>(
        &mut self,
        fsm: &mut F,
        batch: &Vec<CommitTuple>,
        decoded: &Vec<Option<Configuration>>,
    ) -> (r: Vec<Applied<F::Response>>)
        ensures
            batch_applied(
                old(fsm).trace(),
                commit_views(batch@),
                decoded_views(decoded@),
                true,
                F::stores(),
                r@,
                final(fsm).trace(),
            ),
            final(self).position() == position_after(
                old(self).position(),
                commit_views(batch@),
                true,
                F::stores(),
            ),
    {
        let ghost views = commit_views(batch@);
        let ghost base = fsm.trace();
        // Only command and configuration logs are sent to the FSM.
        let mut send_logs: Vec<Log> = Vec::new();
        let mut i: usize = 0;
        assert(views.take(0) =~= Seq::empty());
        assert(log_views(send_logs@) =~= Seq::empty());
        while i < batch.len()
            invariant
                i <= batch@.len(),
                views == commit_views(batch@),
                log_views(send_logs@) == fsm_entries(views.take(i as int), true),
            decreases batch@.len() - i,
        {
            let ghost before = send_logs@;
            assert(views.take(i + 1).drop_last() =~= views.take(i as int));
            assert(views.take(i + 1).last() == batch@[i as int]@);
            if batch[i].log.log_type == LogType::Command || batch[i].log.log_type
                == LogType::Configuration {
                send_logs.push(batch[i].log.clone());
                assert(log_views(send_logs@) =~= log_views(before).push(batch@[i as int]@.log));
            }
            i += 1;
        }
        assert(views.take(i as int) =~= views);
        // Update the indexes from the whole batch, including barriers.
        if batch.len() > 0 {
            let last = &batch[batch.len() - 1];
            assert(views.last() == last@);
            self.last_index = last.log.index;
            self.last_term = last.log.term;
        }
        let mut responses: Vec<Result<F::Response>> = if send_logs.len() == 0 {
            assert(log_views(send_logs@) =~= Seq::empty());
            assert(base.applied + log_views(send_logs@) =~= base.applied);
            Vec::new()
        } else {
            fsm.apply_batch(&send_logs)
        };
        let ghost given = responses@;
        assert(fsm.trace().answers.skip(base.answers.len() as int) =~= given);
        assert(given.skip(0) =~= given);
        let mut answered: Vec<Applied<F::Response>> = Vec::new();
        let mut k: usize = 0;
        while k < batch.len()
            invariant
                k <= batch@.len(),
                views == commit_views(batch@),
                given.len() == fsm_entries(views, true).len(),
                responses@ == given.skip(fsm_entries(views.take(k as int), true).len() as int),
                fsm_entries(views.take(k as int), true).len() <= given.len(),
                answered@ == client_answers(views.take(k as int), given, true),
            decreases batch@.len() - k,
        {
            let ghost seen = views.take(k as int);
            let ghost now = views.take(k + 1);
            let ghost n = fsm_entries(seen, true).len() as int;
            proof {
                assert(now.drop_last() =~= seen);
                assert(now.last() == batch@[k as int]@);
                lemma_fsm_entries_grow(views, k + 1, true);
            }
            // If the log was sent to the FSM, retrieve the response.
            let response: Option<Result<F::Response>> = if batch[k].log.log_type
                == LogType::Command || batch[k].log.log_type == LogType::Configuration {
                let first = responses.remove(0);
                assert(given.skip(n).remove(0) =~= given.skip(n + 1));
                Some(first)
            } else {
                None
            };
            match batch[k].ticket {
                Some(ticket) => {
                    answered.push(
                        Applied {
                            ticket,
                            outcome: ApplyOutcome { index: batch[k].log.index, response },
                        },
                    );
                },
                None => {},
            }
            k += 1;
        }
        assert(views.take(k as int) =~= views);
        answered
    }

    /// Applies a batch of committed logs: in a single call where the machine
    /// wants batches, otherwise individually. `decoded` holds for each entry
    /// the configuration that its data decodes to, if any. Returns the answers
    /// for the clients that wait.
    pub fn apply_commit<F: BatchingFSM + ConfigurationStore>(
        &mut self,
        fsm: &mut F,
        batch: &Vec<CommitTuple>,
        decoded: &Vec<Option<Configuration>>,
    ) -> (r: Vec<Applied<F::Response>>)
        requires
            batch@.len() == decoded@.len(),
        ensures
            batch_applied(
                old(fsm).trace(),
                commit_views(batch@),
                decoded_views(decoded@),
                F::batches(),
                F::stores(),
                r@,
                final(fsm).trace(),
            ),
            final(self).position() == position_after(
                old(self).position(),
                commit_views(batch@),
                F::batches(),
                F::stores(),
            ),
    {
        if F::is_batching() {
            self.apply_together(fsm, batch, decoded)
        } else {
            self.apply_each(fsm, batch, decoded)
        }
    }

    /// Restores the machine from a snapshot that was opened, or not.
    pub fn restore<F: FSM>(
        &mut self,
        fsm: &mut F,
        id: &str,
        opened: Result<(SnapshotMeta, F::Reader)>,
    ) -> (r: Result<()>)
        ensures
            r is Ok ==> opened is Ok && final(self).position() == (
                opened->Ok_0.0.index,
                opened->Ok_0.0.term,
            ),
            r is Err ==> *final(self) == *old(self),
            match opened {
                Ok((_, source)) => {
                    &&& final(fsm).trace() == (Trace {
                        restored: old(fsm).trace().restored.push((source, r is Ok)),
                        ..old(fsm).trace()
                    })
                    &&& r matches Err(e) ==> (e matches RaftError::Other(text) && exists|
                        f: &mut F,
                        c: RaftError,
                    |
                        {
                            &&& *f == *old(fsm)
                            &&& #[trigger] call_ensures(
                                F::restore,
                                (f, source),
                                Err::<(), RaftError>(c),
                            )
                            &&& step_text("failed to restore snapshot "@ + id@ + ": "@, c, text@)
                        })
                },
                Err(cause) => {
                    &&& final(fsm).trace() == old(fsm).trace()
                    &&& r matches Err(RaftError::Other(text)) && step_text(
                        "failed to open snapshot "@ + id@ + ": "@,
                        cause,
                        text@,
                    )
                },
            },
    {
        let (meta, source): (SnapshotMeta, F::Reader) = match opened {
            Ok(opened) => opened,
            Err(e) => {
                return Err(named_failure("failed to open snapshot ", id, &e));
            },
        };
        match fsm.restore(source) {
            Ok(()) => {},
            Err(e) => {
                return Err(named_failure("failed to restore snapshot ", id, &e));
            },
        }
        // Update the last index and term.
        self.last_index = meta.index;
        self.last_term = meta.term;
        Ok(())
    }

    /// Starts a snapshot, where there is something to snapshot.
    pub fn snapshot<F: FSM>(&self, fsm: &mut F) -> (r: Result<(SnapshotStarted, F::Snapshot)>)
        ensures
            self.last_index == 0 ==> (r matches Err(e) && e is NothingNewToSnapshot)
                && *final(fsm) == *old(fsm),
            self.last_index != 0 ==> exists|f: &mut F, answer: Result<F::Snapshot>|
                {
                    &&& *f == *old(fsm)
                    &&& #[trigger] call_ensures(F::snapshot, (f,), answer)
                    &&& *final(f) == *final(fsm)
                    &&& match answer {
                        Ok(snapshot) => r matches Ok((started, given)) && given == snapshot
                            && started.index == self.last_index && started.term == self.last_term,
                        Err(e) => r matches Err(cause) && cause == e,
                    }
                },
            final(fsm).trace() == old(fsm).trace(),
    {
        if self.last_index == 0 {
            return Err(RaftError::NothingNewToSnapshot);
        }
        let answer = fsm.snapshot();
        match answer {
            Ok(snapshot) => Ok(
                (SnapshotStarted { index: self.last_index, term: self.last_term }, snapshot),
            ),
            Err(e) => Err(e),
        }
    }
}

/// A failure with a named thing, and its cause.
fn named_failure(step: &str, name: &str, cause: &RaftError) -> (r: RaftError)
    ensures
        r matches RaftError::Other(text) && step_text(step@ + name@ + ": "@, *cause, text@),
{
    let mut whole = joined(step, name);
    whole.append(": ");
    failed_step(whole.as_str(), cause)
}

proof fn lemma_later_answers_do_not_matter<R>(
    batch: Seq<CommitView>,
    given: Seq<Result<R>>,
    more: Seq<Result<R>>,
    batching: bool,
)
    requires
        given.len() >= fsm_entries(batch, batching).len(),
    ensures
        client_answers(batch, given + more, batching) == client_answers(batch, given, batching),
    decreases batch.len(),
{
    if batch.len() > 0 {
        lemma_later_answers_do_not_matter(batch.drop_last(), given, more, batching);
    }
}

proof fn lemma_fsm_entries_grow(batch: Seq<CommitView>, k: int, batching: bool)
    requires
        0 <= k <= batch.len(),
    ensures
        fsm_entries(batch.take(k), batching).len() <= fsm_entries(batch, batching).len(),
    decreases batch.len(),
{
    if k == batch.len() {
        assert(batch.take(k) =~= batch);
    } else {
        lemma_fsm_entries_grow(batch.drop_last(), k, batching);
        assert(batch.drop_last().take(k) =~= batch.take(k));
    }
}

/// The machine gets the same entries, in the same order, however they are
/// cut into batches.
pub proof fn law_batches_do_not_change_what_is_applied(
    first: Seq<CommitView>,
    second: Seq<CommitView>,
    batching: bool,
)
    ensures
        fsm_entries(first + second, batching) == fsm_entries(first, batching) + fsm_entries(
            second,
            batching,
        ),
    decreases second.len(),
{
    if second.len() == 0 {
        assert(first + second =~= first);
        assert(fsm_entries(first, batching) + fsm_entries(second, batching) =~= fsm_entries(
            first,
            batching,
        ));
    } else {
        law_batches_do_not_change_what_is_applied(first, second.drop_last(), batching);
        assert((first + second).drop_last() =~= first + second.drop_last());
        assert((first + second).last() == second.last());
        let a = fsm_entries(first, batching);
        let b = fsm_entries(second.drop_last(), batching);
        assert((a + b).push(second.last().log) =~= a + b.push(second.last().log));
    }
}

} // verus!
