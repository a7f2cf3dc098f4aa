//! Installing a snapshot that the leader ships, and writing snapshots to the
//! store.

use crate::config::SNAPSHOT_VERSION_MAX;
use crate::configuration::{Configuration, ServerView};
use crate::error::{step_text, RaftError, Result};
use crate::leadership::{unsupported_version, wrong_size, wrong_size_text};
use crate::log::LogStore;
use crate::raft::{
    own_header, recorded_candidate, recorded_term, recorded_vote_term, term_unsaved,
    with_committed, with_contact, with_latest, with_leader, with_state, with_term, Fatal, NodeView, RaftCore,
};
use crate::snapshot::{
    chunk_at, copy_to_sink, failed_step, trims_logs, SnapshotPlan, SnapshotSink, SnapshotStore,
};
use crate::stable::StableStore;
use crate::state::{RaftSharedState, RaftState};
use crate::text::decimal;
use crate::time::Instant;
use crate::transport::{InstallSnapshotRequest, InstallSnapshotResponse};
use vstd::prelude::*;

verus! {

/// How the installation of a snapshot begins.
#[derive(Debug)]
pub enum InstallStep {
    /// The request carries no data and is refused.
    NoData(RaftError),
    /// The request is refused; its data is to be drained.
    Refused(RaftError),
    /// The request is from an older term; its data is to be drained.
    Stale(InstallSnapshotResponse),
    /// The snapshot is to be created and its data written to it.
    Create(SnapshotPlan),
}

/// Whether a snapshot of this version can be read.
pub open spec fn snapshot_version_known(version: u8) -> bool {
    1 <= version <= SNAPSHOT_VERSION_MAX
}

/// Whether a snapshot that can be taken up comes from a newer term.
pub open spec fn ships_newer_term(
    n: NodeView,
    req: InstallSnapshotRequest,
    has_data: bool,
) -> bool {
    has_data && snapshot_version_known(req.snapshot_version) && req.term > n.shared.current_term
}

/// The node after a leader of a term that is not older ships a snapshot.
pub open spec fn shipped_to(n: NodeView, req: InstallSnapshotRequest) -> NodeView {
    with_leader(
        if req.term > n.shared.current_term {
            with_term(with_state(n, RaftState::Follower), req.term)
        } else {
            n
        },
        req.header.addr@,
        req.header.id@,
    )
}

/// The node after a snapshot was installed: it is applied and is the last
/// one, and its configuration is the latest and the committed one.
pub open spec fn installed(
    n: NodeView,
    req: InstallSnapshotRequest,
    servers: Seq<ServerView>,
    now: Instant,
) -> NodeView {
    let m = NodeView {
        shared: RaftSharedState {
            last_applied: req.last_log_index,
            last_snapshot: (req.last_log_index, req.last_log_term),
            ..n.shared
        },
        ..n
    };
    with_contact(
        with_committed(
            with_latest(m, servers, req.configuration_index),
            servers,
            req.configuration_index,
        ),
        now,
    )
}

/// What came of writing a snapshot to the store.
#[derive(Debug)]
pub enum Spill {
    NotCreated(RaftError),
    NotCopied(RaftError),
    /// So many bytes came, which is not what was announced.
    WrongSize(u64),
    NotClosed(RaftError),
    /// The snapshot of this ID is complete.
    Written(String),
}

/// Whether a store may answer so where the planned snapshot is to be created.
pub open spec fn create_answered<N: SnapshotStore>(
    store: N,
    plan: SnapshotPlan,
    r: Result<N::Sink>,
) -> bool {
    exists|st: &mut N|
        *st == store && #[trigger] call_ensures(
            N::create,
            (
                st,
                plan.version,
                plan.index,
                plan.term,
                &plan.configuration,
                plan.configuration_index,
            ),
            r,
        )
}

/// Creates a snapshot and writes the data to it. A snapshot that is not
/// complete is cancelled.
pub fn spill_snapshot<N: SnapshotStore>(
    store: &mut N,
    plan: &SnapshotPlan,
    data: &[u8],
    size: u64,
) -> (r: Spill)
    ensures
        match r {
            Spill::NotCreated(e) => create_answered(*old(store), *plan, Err(e)),
            Spill::NotCopied(e) => exists|
                sink: N::Sink,
                done: int,
                st: &mut N,
                sk: &mut N::Sink,
                chunk: &[u8],
                cst: &mut N,
                csk: &mut N::Sink,
                cancelled: Result<()>,
            |
                {
                    &&& #[trigger] create_answered(*old(store), *plan, Ok(sink))
                    &&& 0 <= done < data@.len()
                    &&& chunk@ == #[trigger] chunk_at(data@, done)
                    &&& sk.written() == data@.take(done)
                    &&& sk.name() == sink.name()
                    &&& #[trigger] call_ensures(
                        N::write,
                        (st, sk, chunk),
                        Err::<usize, RaftError>(e),
                    )
                    &&& *cst == *final(st)
                    &&& *csk == *final(sk)
                    &&& #[trigger] call_ensures(N::cancel, (cst, csk), cancelled)
                    &&& *final(cst) == *final(store)
                },
            Spill::WrongSize(n) => n == data@.len() && n != size && exists|
                sink: N::Sink,
                st: &mut N,
                sk: &mut N::Sink,
                cancelled: Result<()>,
            |
                {
                    &&& #[trigger] create_answered(*old(store), *plan, Ok(sink))
                    &&& sk.written() == data@
                    &&& sk.name() == sink.name()
                    &&& #[trigger] call_ensures(N::cancel, (st, sk), cancelled)
                    &&& *final(st) == *final(store)
                },
            Spill::NotClosed(e) => data@.len() == size && exists|
                sink: N::Sink,
                st: &mut N,
                sk: &mut N::Sink,
            |
                {
                    &&& #[trigger] create_answered(*old(store), *plan, Ok(sink))
                    &&& sk.written() == data@
                    &&& sk.name() == sink.name()
                    &&& #[trigger] call_ensures(N::close, (st, sk), Err::<(), RaftError>(e))
                    &&& *final(st) == *final(store)
                },
            Spill::Written(id) => data@.len() == size && exists|
                sink: N::Sink,
                st: &mut N,
                sk: &mut N::Sink,
                closed: Result<()>,
            |
                {
                    &&& #[trigger] create_answered(*old(store), *plan, Ok(sink))
                    &&& sk.written() == data@
                    &&& sk.name() == sink.name()
                    &&& sink.name() == id@
                    &&& closed is Ok
                    &&& #[trigger] call_ensures(N::close, (st, sk), closed)
                    &&& *final(st) == *final(store)
                },
        },
        r is NotCreated ==> exists|st: &mut N, answer: Result<N::Sink>|
            {
                &&& *st == *old(store)
                &&& #[trigger] call_ensures(
                    N::create,
                    (
                        st,
                        plan.version,
                        plan.index,
                        plan.term,
                        &plan.configuration,
                        plan.configuration_index,
                    ),
                    answer,
                )
                &&& *final(st) == *final(store)
            },
{
    let created = store.create(
        plan.version,
        plan.index,
        plan.term,
        &plan.configuration,
        plan.configuration_index,
    );
    assert(create_answered(*old(store), *plan, created));
    let mut sink = match created {
        Ok(sink) => sink,
        Err(e) => {
            return Spill::NotCreated(e);
        },
    };
    let ghost begun = sink;
    assert(create_answered(*old(store), *plan, Ok(begun)));
    match copy_to_sink(store, &mut sink, data) {
        Ok(n) => {
            assert(sink.written() =~= data@);
            if n != size {
                let _cancelled = store.cancel(&mut sink);
                return Spill::WrongSize(n);
            }
        },
        Err(e) => {
            assert forall|done: int| begun.written() + #[trigger] data@.take(done) == data@.take(
                done,
            ) by {
                assert(begun.written() + data@.take(done) =~= data@.take(done));
            }
            let _cancelled = store.cancel(&mut sink);
            return Spill::NotCopied(e);
        },
    }
    let id = sink.id();
    let closed = store.close(&mut sink);
    match closed {
        Ok(()) => Spill::Written(id),
        Err(e) => Spill::NotClosed(e),
    }
}

/// What a leader is told of a shipped snapshot that was written, or not.
pub fn installed_copy(spill: Spill) -> (r: Result<String>)
    ensures
        match spill {
            Spill::Written(id) => r matches Ok(name) && name == id,
            Spill::WrongSize(_) => r matches Err(RaftError::Other(text)) && text@
                == "short read"@,
            Spill::NotCreated(e) => r matches Err(RaftError::Other(text)) && step_text(
                "failed to create snapshot: "@,
                e,
                text@,
            ),
            Spill::NotCopied(e) => r matches Err(cause) && cause == e,
            Spill::NotClosed(e) => r matches Err(cause) && cause == e,
        },
{
    match spill {
        Spill::Written(id) => Ok(id),
        Spill::WrongSize(_) => Err(RaftError::Other("short read".to_owned())),
        Spill::NotCreated(e) => Err(failed_step("failed to create snapshot: ", &e)),
        Spill::NotCopied(e) => Err(e),
        Spill::NotClosed(e) => Err(e),
    }
}

/// What a user is told of a snapshot that was to be restored.
pub fn restored_copy(spill: Spill, size: u64) -> (r: Result<String>)
    ensures
        match spill {
            Spill::Written(id) => r matches Ok(name) && name == id,
            Spill::WrongSize(n) => r matches Err(RaftError::Other(text)) && text@ == wrong_size(
                n,
                size,
            ),
            Spill::NotCreated(e) => r matches Err(RaftError::Other(text)) && step_text(
                "failed to create snapshot: "@,
                e,
                text@,
            ),
            Spill::NotCopied(e) => r matches Err(RaftError::Other(text)) && step_text(
                "failed to write snapshot: "@,
                e,
                text@,
            ),
            Spill::NotClosed(e) => r matches Err(RaftError::Other(text)) && step_text(
                "failed to close snapshot: "@,
                e,
                text@,
            ),
        },
{
    match spill {
        Spill::Written(id) => Ok(id),
        Spill::WrongSize(n) => Err(RaftError::Other(wrong_size_text(n, size))),
        Spill::NotCreated(e) => Err(failed_step("failed to create snapshot: ", &e)),
        Spill::NotCopied(e) => Err(failed_step("failed to write snapshot: ", &e)),
        Spill::NotClosed(e) => Err(failed_step("failed to close snapshot: ", &e)),
    }
}

impl RaftCore {
    /// Begins the installation of a snapshot that the leader ships.
    /// `decoded` is the configuration that comes with it, decoded.
    pub fn begin_install<S: StableStore>(
        &mut self,
        stable: &mut S,
        req: &InstallSnapshotRequest,
        has_data: bool,
        decoded: Result<Configuration>,
    ) -> (r: std::result::Result<InstallStep, Fatal>)
        ensures
            r matches Err(f) ==> term_unsaved(*old(stable), req.term, f) && ships_newer_term(
                old(self)@,
                *req,
                has_data,
            ) && final(self)@ == with_state(old(self)@, RaftState::Follower),
            r matches Ok(step) ==> {
                let n = old(self)@;
                if !has_data {
                    &&& step matches InstallStep::NoData(RaftError::Other(text)) && text@
                        == "missing snapshot data"@
                    &&& final(self)@ == n
                } else if !snapshot_version_known(req.snapshot_version) {
                    &&& step matches InstallStep::Refused(RaftError::Other(text)) && text@
                        == "unsupported snapshot version "@ + decimal(
                        req.snapshot_version as nat,
                    )
                    &&& final(self)@ == n
                } else if req.term < n.shared.current_term {
                    &&& step matches InstallStep::Stale(resp) && resp.header@ == own_header(n)
                        && resp.term == n.shared.current_term && !resp.success
                    &&& final(self)@ == n
                } else {
                    &&& final(self)@ == shipped_to(n, *req)
                    &&& match decoded {
                        Ok(conf) => step matches InstallStep::Create(plan) && plan.version
                            == SNAPSHOT_VERSION_MAX && plan.index == req.last_log_index
                            && plan.term == req.last_log_term && plan.configuration@ == conf@
                            && plan.configuration_index == req.configuration_index,
                        Err(e) => step matches InstallStep::Refused(cause) && cause == e,
                    }
                }
            },
            r is Ok ==> recorded_term(final(stable)) == if ships_newer_term(
                old(self)@,
                *req,
                has_data,
            ) {
                req.term
            } else {
                recorded_term(old(stable))
            },
            r is Ok ==> recorded_vote_term(final(stable)) == recorded_vote_term(old(stable)),
            r is Ok ==> recorded_candidate(final(stable)) == recorded_candidate(old(stable)),
    {
        let resp = InstallSnapshotResponse {
            header: self.rpc_header(),
            term: self.shared.current_term(),
            success: false,
        };
        if !has_data {
            return Ok(
                InstallStep::NoData(RaftError::Other("missing snapshot data".to_owned())),
            );
        }
        // Sanity check the version.
        if req.snapshot_version == 0 || req.snapshot_version > SNAPSHOT_VERSION_MAX {
            return Ok(
                InstallStep::Refused(
                    RaftError::Other(unsupported_version(req.snapshot_version)),
                ),
            );
        }
        // Ignore an older term.
        if req.term < self.shared.current_term() {
            return Ok(InstallStep::Stale(resp));
        }
        // Increase the term if we see a newer one.
        if req.term > self.shared.current_term() {
            // Ensure transition to follower.
            self.set_state(RaftState::Follower);
            match self.set_current_term(stable, req.term) {
                Ok(()) => {},
                Err(f) => {
                    return Err(f);
                },
            }
        }
        // Save the current leader.
        self.set_leader(req.header.addr.clone(), req.header.id.clone());
        match decoded {
            Ok(configuration) => Ok(
                InstallStep::Create(
                    SnapshotPlan {
                        version: SNAPSHOT_VERSION_MAX,
                        index: req.last_log_index,
                        term: req.last_log_term,
                        configuration,
                        configuration_index: req.configuration_index,
                    },
                ),
            ),
            Err(e) => Ok(InstallStep::Refused(e)),
        }
    }

    /// Concludes the installation of a snapshot that was restored into the
    /// FSM; the logs are compacted as far as that succeeds.
    pub fn finish_install<L: LogStore>(
        &mut self,
        logs: &mut L,
        req: &InstallSnapshotRequest,
        configuration: Configuration,
        now: Instant,
    ) -> (r: InstallSnapshotResponse)
        ensures
            final(self)@ == installed(old(self)@, *req, configuration@, now),
            r.header@ == own_header(old(self)@),
            r.term == req.term,
            r.success,
            exists|trimmed: Result<()>| #[trigger]
                trims_logs(
                    *old(logs),
                    *final(logs),
                    old(self)@,
                    req.last_log_index,
                    trimmed,
                ),
    {
        // Update the last applied so we don't replay old logs.
        self.shared.set_last_applied(req.last_log_index);
        // Update the last stable snapshot info.
        self.shared.set_last_snapshot(req.last_log_index, req.last_log_term);
        // Restore the peer set.
        self.set_latest_configuration(configuration.clone(), req.configuration_index);
        self.set_committed_configuration(configuration, req.configuration_index);
        // Compact the logs; go on where that fails.
        let trimmed = self.compact_logs(logs, req.last_log_index);
        assert(trims_logs(*old(logs), *logs, old(self)@, req.last_log_index, trimmed));
        self.shared.set_last_contact(now);
        InstallSnapshotResponse { header: self.rpc_header(), term: req.term, success: true }
    }
}

/// A shipped snapshot never lowers the term. The node knows the leader that
/// ships it, and is a follower where the term is newer.
pub proof fn law_shipping_never_lowers_the_term(n: NodeView, req: InstallSnapshotRequest)
    requires
        req.term >= n.shared.current_term,
    ensures
        shipped_to(n, req).shared.current_term == req.term,
        shipped_to(n, req).leader_addr == req.header.addr@,
        shipped_to(n, req).leader_id == req.header.id@,
        req.term > n.shared.current_term ==> shipped_to(n, req).shared.state
            == RaftState::Follower,
{
}

/// An installed snapshot leaves no configuration change outstanding, and the
/// end of what the node holds reaches at least the snapshot.
pub proof fn law_installed_snapshot_is_settled(
    n: NodeView,
    req: InstallSnapshotRequest,
    servers: Seq<ServerView>,
    now: Instant,
)
    ensures
        installed(n, req, servers, now).configurations.latest_index == installed(
            n,
            req,
            servers,
            now,
        ).configurations.committed_index,
        installed(n, req, servers, now).configurations.latest == installed(
            n,
            req,
            servers,
            now,
        ).configurations.committed,
        installed(n, req, servers, now).shared.spec_last_index() >= req.last_log_index,
        installed(n, req, servers, now).shared.current_term == n.shared.current_term,
{
}

} // verus!
