//! A cluster in one process and one thread: every message is delivered at
//! once, and time passes when a test says so.

use raft::api::{bootstrap_cluster, has_existing_state, new_raft, ClientRequest, Raft};
use raft::apply::{Applying, LogFuture};
use raft::config::Config;
use raft::configuration::{Configuration, Server, ServerSuffrage};
use raft::election::{pre_vote_result, vote_result, Campaign, CandidateStep, Campaigning};
use raft::error::{RaftError, Result};
use raft::fsm::{
    persist_and_release, persist_outcome, BatchingFSM, ConfigurationStore, FSMSnapshot, FsmRunner, FSM,
};
use raft::inmem_snapshot::InmemSnapshotStore;
use raft::inmem_store::InmemStore;
use raft::install::{installed_copy, restored_copy, spill_snapshot, InstallStep};
use raft::leader::{AfterCommit, Dispatch, LeaderState};
use raft::leadership::{TransferStep, VerifyAnswer};
use raft::log::{Log, LogStore, LogType};
use raft::observer::{Observation, ObservationData, Observer, ObserverHandle, Observers};
use raft::raft::RaftCore;
use raft::replication::{HeartbeatLoop, ReplicateStep, ReplyStep};
use raft::rpc::RpcAnswer;
use raft::snapshot::{SnapshotMeta, SnapshotStore};
use raft::stable::StableStore;
use raft::state::RaftState;
use raft::time::{Duration, Instant};
use raft::transport::{
    AppendEntriesRequest, InstallSnapshotRequest, RPCCommand, RPCHeader, RPCResponse,
    RequestVoteRequest, TimeoutNowRequest, TimeoutNowResponse,
};
use std::collections::HashMap;

fn encode_configuration(c: &Configuration) -> Vec<u8> {
    let rows: Vec<(bool, String, String)> = c
        .servers
        .iter()
        .map(|s| {
            (
                s.suffrage == ServerSuffrage::Voter,
                s.id.clone(),
                s.address.clone(),
            )
        })
        .collect();
    rmp_serde::to_vec(&rows).unwrap()
}

fn decode_configuration(data: &[u8]) -> Option<Configuration> {
    let rows: Vec<(bool, String, String)> = rmp_serde::from_slice(data).ok()?;
    Some(Configuration {
        servers: rows
            .into_iter()
            .map(|(votes, id, address)| Server {
                suffrage: if votes {
                    ServerSuffrage::Voter
                } else {
                    ServerSuffrage::Nonvoter
                },
                id,
                address,
            })
            .collect(),
    })
}

fn decoded(entries: &[Log]) -> Vec<Option<Configuration>> {
    entries
        .iter()
        .map(|e| {
            if e.log_type == LogType::Configuration {
                decode_configuration(&e.data)
            } else {
                None
            }
        })
        .collect()
}

/// An FSM that just stores the logs sequentially.
#[derive(Default)]
struct MockFsm {
    logs: Vec<Vec<u8>>,
    configurations: Vec<Configuration>,
}

struct MockSnapshot {
    logs: Vec<Vec<u8>>,
}

impl FSMSnapshot for MockSnapshot {
    fn persist<N: SnapshotStore>(&self, store: &mut N, sink: N::Sink) -> Result<()> {
        let mut sink = sink;
        let buf = rmp_serde::to_vec(&self.logs).unwrap();
        store.write(&mut sink, &buf)?;
        store.close(&mut sink)
    }

    fn release(&self) {}
}

impl FSM for MockFsm {
    type Response = usize;
    type Snapshot = MockSnapshot;
    type Reader = Vec<u8>;

    fn apply(&mut self, log: &Log) -> Result<usize> {
        self.logs.push(log.data.clone());
        Ok(self.logs.len())
    }

    fn snapshot(&mut self) -> Result<MockSnapshot> {
        Ok(MockSnapshot {
            logs: self.logs.clone(),
        })
    }

    fn restore(&mut self, snapshot: Vec<u8>) -> Result<()> {
        self.logs = match rmp_serde::from_slice(&snapshot) {
            Ok(logs) => logs,
            Err(e) => return Err(RaftError::Decode(e.to_string())),
        };
        Ok(())
    }
}

impl BatchingFSM for MockFsm {
    fn is_batching() -> bool {
        false
    }

    fn apply_batch(&mut self, logs: &Vec<Log>) -> Vec<Result<usize>> {
        logs.iter().map(|log| self.apply(log)).collect()
    }
}

impl ConfigurationStore for MockFsm {
    fn stores_configurations() -> bool {
        true
    }

    fn store_configuration(&mut self, _index: u64, configuration: Configuration) {
        self.configurations.push(configuration);
    }
}

struct Node {
    raft: Raft,
    logs: InmemStore,
    stable: InmemStore,
    snaps: InmemSnapshotStore,
    fsm: MockFsm,
    runner: FsmRunner,
    leading: Option<LeaderState>,
    /// What clients were answered: the index and the response.
    applied: HashMap<u64, (u64, Option<usize>)>,
    failed: HashMap<u64, RaftError>,
    seen: Vec<ObservationData>,
}

impl Node {
    fn run(&mut self, work: Applying) {
        for (ticket, index) in work.answered {
            self.applied.insert(ticket, (index, None));
        }
        for batch in work.batches {
            let entries: Vec<Log> = batch.iter().map(|c| c.log.clone()).collect();
            let answers = self
                .runner
                .apply_commit(&mut self.fsm, &batch, &decoded(&entries));
            for a in answers {
                let response = a.outcome.response.map(|r| r.unwrap());
                self.applied.insert(a.ticket, (a.outcome.index, response));
            }
        }
    }

    fn handle(
        &mut self,
        command: RPCCommand,
        data: Option<Vec<u8>>,
        now: Instant,
    ) -> Result<RPCResponse> {
        let conf = match &command {
            RPCCommand::AppendEntries(req) => decoded(&req.entries),
            _ => Vec::new(),
        };
        let answer = self
            .raft
            .core
            .process_rpc(&mut self.logs, &mut self.stable, command, &conf, now)
            .unwrap();
        let result = match answer {
            RpcAnswer::Refused(e) => Err(e),
            RpcAnswer::Reply(resp, work) => {
                self.run(work);
                Ok(resp)
            }
            RpcAnswer::Install(req) => {
                let conf = match decode_configuration(&req.configuration) {
                    Some(conf) => Ok(conf),
                    None => Err(RaftError::Decode("no configuration".into())),
                };
                let kept = decode_configuration(&req.configuration).unwrap_or_default();
                let step = self
                    .raft
                    .core
                    .begin_install(&mut self.stable, &req, data.is_some(), conf)
                    .unwrap();
                match step {
                    InstallStep::NoData(e) => Err(e),
                    InstallStep::Refused(e) => Err(e),
                    InstallStep::Stale(resp) => Ok(RPCResponse::InstallSnapshot(resp)),
                    InstallStep::Create(plan) => {
                        let bytes = data.unwrap();
                        let spill = spill_snapshot(&mut self.snaps, &plan, &bytes, req.size);
                        let id = installed_copy(spill)?;
                        let opened = self.snaps.open(&id);
                        self.runner.restore(&mut self.fsm, &id, opened)?;
                        let resp =
                            self.raft
                                .core
                                .finish_install(&mut self.logs, &req, kept, now);
                        Ok(RPCResponse::InstallSnapshot(resp))
                    }
                }
            }
        };
        self.settle(now);
        result
    }

    /// Concludes leadership once the role is lost.
    fn settle(&mut self, now: Instant) {
        if self.raft.state() != RaftState::Leader {
            if let Some(ls) = self.leading.take() {
                let (lost, unverified) = self.raft.core.end_leadership(ls, now);
                for f in lost.into_iter().chain(unverified) {
                    if let Some(t) = f.ticket {
                        self.failed.insert(t, f.error);
                    }
                }
            }
        }
        self.seen.extend(self.raft.core.take_observations());
    }
}

struct Cluster {
    nodes: Vec<Node>,
    connected: Vec<bool>,
    now: Instant,
    next_ticket: u64,
}

fn inmem_config() -> Config {
    Config {
        heartbeat_timeout: Duration::from_millis(50),
        election_timeout: Duration::from_millis(50),
        leader_lease_timeout: Duration::from_millis(50),
        commit_timeout: Duration::from_millis(5),
        ..Default::default()
    }
}

fn start(
    conf: Config,
    addr: String,
    logs: InmemStore,
    stable: InmemStore,
    snaps: InmemSnapshotStore,
) -> Node {
    let mut fsm = MockFsm::default();
    let mut stable = stable;
    let raft = new_raft(
        conf,
        addr,
        &mut fsm,
        &logs,
        &mut stable,
        &snaps,
        &|data: &Vec<u8>| decode_configuration(data),
    )
    .unwrap();
    let mut runner = FsmRunner::new();
    runner.last_index = raft.applied_index();
    Node {
        raft,
        logs,
        stable,
        snaps,
        fsm,
        runner,
        leading: None,
        applied: HashMap::new(),
        failed: HashMap::new(),
        seen: Vec::new(),
    }
}

fn make_cluster(n: usize, conf: &dyn Fn() -> Config) -> Cluster {
    let configuration = Configuration {
        servers: (0..n)
            .map(|i| Server {
                suffrage: ServerSuffrage::Voter,
                id: format!("server-{}", i),
                address: format!("addr-{}", i),
            })
            .collect(),
    };
    let mut nodes = Vec::new();
    for i in 0..n {
        let mut peer = conf();
        peer.local_id = configuration.servers[i].id.clone();
        let mut logs = InmemStore::new();
        let mut stable = InmemStore::new();
        let snaps = InmemSnapshotStore::new();
        assert!(!has_existing_state(&logs, &stable, &snaps).unwrap());
        bootstrap_cluster(
            &peer,
            &mut logs,
            &mut stable,
            &snaps,
            &configuration,
            Ok(encode_configuration(&configuration)),
        )
        .unwrap();
        assert!(has_existing_state(&logs, &stable, &snaps).unwrap());
        nodes.push(start(peer, format!("addr-{}", i), logs, stable, snaps));
    }
    Cluster {
        connected: vec![true; n],
        nodes,
        now: Instant { nanos: 1_000_000_000 },
        next_ticket: 1,
    }
}

impl Cluster {
    fn pass(&mut self, millis: u64) {
        self.now = Instant {
            nanos: self.now.nanos + millis * 1_000_000,
        };
    }

    fn ticket(&mut self) -> u64 {
        self.next_ticket += 1;
        self.next_ticket
    }

    fn call(
        &mut self,
        from: usize,
        addr: &str,
        command: RPCCommand,
        data: Option<Vec<u8>>,
    ) -> Result<RPCResponse> {
        let to = self
            .nodes
            .iter()
            .position(|n| n.raft.local_addr() == addr)
            .unwrap();
        if !self.connected[from] || !self.connected[to] {
            return Err(RaftError::Other(format!(
                "failed to connect to peer: {}",
                addr
            )));
        }
        let now = self.now;
        self.nodes[to].handle(command, data, now)
    }

    /// Lets the heartbeat timer of a node run out; tells whether it stood for
    /// election and won.
    fn time_out(&mut self, i: usize) -> bool {
        let now = self.now;
        let mut warned = false;
        if !self.nodes[i].raft.core.heartbeat_timeout(now, &mut warned) {
            self.nodes[i].settle(now);
            return false;
        }
        self.campaign(i)
    }

    /// Runs one candidacy to its end.
    fn campaign(&mut self, i: usize) -> bool {
        let now = self.now;
        let node = &mut self.nodes[i];
        let (mut election, first) = node.raft.core.start_candidacy(&mut node.stable).unwrap();
        let mut votes: Option<Campaign> = None;
        match first {
            Campaigning::Vote(c) => votes = Some(c),
            Campaigning::PreVote(p) => {
                let mut results = Vec::new();
                for _ in 0..p.own_votes {
                    results.push((p.request.term, true));
                }
                for peer in &p.peers {
                    let req = raft::transport::RequestPreVoteRequest {
                        header: p.request.header.clone(),
                        term: p.request.term,
                        last_log_index: p.request.last_log_index,
                        last_log_term: p.request.last_log_term,
                    };
                    let reply = self
                        .call(i, &peer.address, RPCCommand::RequestPreVote(req), None)
                        .and_then(|r| r.into_request_pre_vote());
                    let r = pre_vote_result(reply, p.request.term, peer.id.clone());
                    results.push((r.term, r.granted));
                }
                for (term, granted) in results {
                    let node = &mut self.nodes[i];
                    if !election.pre_vote {
                        break;
                    }
                    let vote = raft::election::VoteResult {
                        term,
                        granted,
                        voter_id: String::new(),
                    };
                    match node
                        .raft
                        .core
                        .count_pre_vote(&mut node.stable, &mut election, vote)
                        .unwrap()
                    {
                        CandidateStep::Elect(c) => votes = Some(c),
                        CandidateStep::StepDown => break,
                        _ => {}
                    }
                }
            }
        }
        if let Some(c) = votes {
            let mut results = Vec::new();
            for _ in 0..c.own_votes {
                results.push((c.request.term, true));
            }
            for peer in &c.peers {
                let reply = self
                    .call(
                        i,
                        &peer.address,
                        RPCCommand::RequestVote(c.request.clone()),
                        None,
                    )
                    .and_then(|r| r.into_request_vote());
                let r = vote_result(reply, c.request.term, peer.id.clone());
                results.push((r.term, r.granted));
            }
            for (term, granted) in results {
                let node = &mut self.nodes[i];
                if node.raft.state() != RaftState::Candidate {
                    break;
                }
                let vote = raft::election::VoteResult {
                    term,
                    granted,
                    voter_id: String::new(),
                };
                node.raft
                    .core
                    .count_vote(&mut node.stable, &mut election, vote)
                    .unwrap();
            }
        }
        self.nodes[i].raft.core.end_candidacy();
        self.nodes[i].settle(now);
        if self.nodes[i].raft.state() != RaftState::Leader {
            return false;
        }
        // Lead: replicate to every peer and commit a no-op.
        let node = &mut self.nodes[i];
        let mut ls = node.raft.core.begin_leadership();
        node.raft.core.start_stop_replication(&mut ls, now);
        let noop = RaftCore::noop_log();
        assert!(matches!(
            node.raft
                .core
                .dispatch_logs(&mut ls, &mut node.logs, vec![noop], now),
            Dispatch::Written
        ));
        node.leading = Some(ls);
        self.replicate(i);
        true
    }

    fn commit(&mut self, i: usize) {
        let now = self.now;
        let node = &mut self.nodes[i];
        let mut ls = match node.leading.take() {
            Some(ls) => ls,
            None => return,
        };
        let mut shut_down = false;
        if ls.commitment.take_notice() {
            let done = node
                .raft
                .core
                .commit_advanced(&mut ls, &node.logs)
                .unwrap();
            node.run(done.applying);
            shut_down = done.next == AfterCommit::ShutDown;
        }
        node.leading = Some(ls);
        if shut_down {
            node.raft.shutdown();
        }
        node.settle(now);
    }

    /// Brings every follower that can be reached up to date, twice, so that
    /// they also learn of what was committed.
    fn replicate(&mut self, i: usize) {
        for _ in 0..2 {
            let peers = match &self.nodes[i].leading {
                Some(ls) => ls.repl.len(),
                None => return,
            };
            for k in 0..peers {
                self.bring_up(i, k);
                if self.nodes[i].leading.is_none() {
                    return;
                }
            }
            self.commit(i);
        }
    }

    fn bring_up(&mut self, i: usize, k: usize) {
        let mut allow_pipeline = false;
        loop {
            let now = self.now;
            let mut ls = match self.nodes[i].leading.take() {
                Some(ls) => ls,
                None => return,
            };
            let node = &self.nodes[i];
            let last = node.raft.last_index();
            let addr = ls.repl[k].peer.address.clone();
            let step = ls.repl[k].next_step(&node.raft.core, &node.logs, last);
            let (next, voted, ok, newer) = match step {
                ReplicateStep::GiveUp => panic!("an entry could not be read"),
                ReplicateStep::Send(req) => {
                    let sent = copy_request(&req);
                    match self
                        .call(i, &addr, RPCCommand::AppendEntries(sent), None)
                        .and_then(|r| r.into_append_entries())
                    {
                        Err(_) => {
                            ls.repl[k].request_failed();
                            self.nodes[i].leading = Some(ls);
                            return;
                        }
                        Ok(resp) => {
                            let mut repl = ls.repl.remove(k);
                            let (next, voted, ok) = repl.append_replied(
                                &mut ls.commitment,
                                &req,
                                &resp,
                                last,
                                &mut allow_pipeline,
                                now,
                            );
                            ls.repl.insert(k, repl);
                            (next, voted, ok, resp.term)
                        }
                    }
                }
                ReplicateStep::SendSnapshot => {
                    let metas = node.snaps.list().unwrap();
                    let (meta, data) = node.snaps.open(&metas[0].id).unwrap();
                    let conf = encode_configuration(&meta.configuration);
                    let req = ls.repl[k].snapshot_request(&node.raft.core, &meta, conf);
                    let sent = ls.repl[k].snapshot_request(
                        &node.raft.core,
                        &meta,
                        encode_configuration(&meta.configuration),
                    );
                    match self
                        .call(i, &addr, RPCCommand::InstallSnapshot(sent), Some(data))
                        .and_then(|r| r.into_install_snapshot())
                    {
                        Err(_) => {
                            ls.repl[k].request_failed();
                            self.nodes[i].leading = Some(ls);
                            return;
                        }
                        Ok(resp) => {
                            let mut repl = ls.repl.remove(k);
                            let (next, voted, ok) = repl.snapshot_replied(
                                &mut ls.commitment,
                                &req,
                                &resp,
                                last,
                                now,
                            );
                            ls.repl.insert(k, repl);
                            (next, voted, ok, resp.term)
                        }
                    }
                }
            };
            let decided = ls.vote_verifications(&voted, ok);
            let node = &mut self.nodes[i];
            for t in decided {
                match node.raft.core.verify_decided(&mut ls, t) {
                    VerifyAnswer::Confirmed => {
                        node.applied.insert(t, (0, None));
                    }
                    VerifyAnswer::NotLeader => {
                        node.failed.insert(t, RaftError::NotLeader);
                    }
                    VerifyAnswer::Unknown => {}
                }
            }
            node.leading = Some(ls);
            if next == ReplyStep::Stop {
                // The follower knows a newer term.
                assert!(newer > node.raft.current_term());
                node.raft.core.set_state(RaftState::Follower);
                node.settle(now);
                return;
            }
            node.settle(now);
            if next == ReplyStep::Done {
                return;
            }
        }
    }

    /// Hands a log entry to a node, as a client does.
    fn submit(&mut self, i: usize, future: LogFuture) -> u64 {
        let now = self.now;
        let ticket = future.ticket.unwrap();
        let node = &mut self.nodes[i];
        if let Some(e) = node.raft.refusal(ClientRequest::Apply) {
            node.failed.insert(ticket, e);
            return ticket;
        }
        let mut ls = node.leading.take().unwrap();
        if let Some(e) = RaftCore::apply_refusal(&ls) {
            node.failed.insert(ticket, e);
        } else {
            match node
                .raft
                .core
                .dispatch_logs(&mut ls, &mut node.logs, vec![future], now)
            {
                Dispatch::Written => {}
                Dispatch::Failed { failed, .. } => {
                    for f in failed {
                        node.failed.insert(f.ticket.unwrap(), f.error);
                    }
                }
            }
        }
        node.leading = Some(ls);
        node.settle(now);
        self.replicate(i);
        ticket
    }

    fn apply(&mut self, i: usize, data: &[u8]) -> u64 {
        let ticket = self.ticket();
        self.submit(i, Raft::apply(data, ticket))
    }

    /// Elects the node with the given number.
    fn elect(&mut self, i: usize) {
        self.pass(100);
        assert!(self.time_out(i), "node {} should win", i);
    }

    fn ensure_same(&self) {
        for n in &self.nodes {
            assert_eq!(n.fsm.logs, self.nodes[0].fsm.logs);
        }
    }

    fn take_snapshot(&mut self, i: usize) -> Result<()> {
        let node = &mut self.nodes[i];
        let (started, snap) = match node.runner.snapshot(&mut node.fsm) {
            Ok((started, snap)) => (Ok(started), Some(snap)),
            Err(e) => (Err(e), None),
        };
        let plan = RaftCore::plan_snapshot(started, &node.raft.core.configurations)?;
        let sink = node.snaps.create(
            plan.version,
            plan.index,
            plan.term,
            &plan.configuration,
            plan.configuration_index,
        )?;
        persist_and_release(snap.unwrap(), &mut node.snaps, sink)?;
        node.raft
            .core
            .finish_snapshot(&mut node.logs, plan.index, plan.term)
    }
}

fn copy_request(req: &AppendEntriesRequest) -> AppendEntriesRequest {
    AppendEntriesRequest {
        header: req.header.clone(),
        term: req.term,
        prev_log_entry: req.prev_log_entry,
        prev_log_term: req.prev_log_term,
        entries: req.entries.clone(),
        leader_commit_index: req.leader_commit_index,
    }
}

fn three() -> Cluster {
    let mut c = make_cluster(3, &inmem_config);
    c.elect(0);
    c
}

#[test]
fn single_node() {
    let mut c = make_cluster(1, &inmem_config);
    c.elect(0);
    // Should be leader.
    assert_eq!(c.nodes[0].raft.state(), RaftState::Leader);
    // Should be able to apply.
    let t = c.apply(0, b"test");
    let (index, response) = c.nodes[0].applied[&t];
    // Check the response (the FSM returns its log count).
    assert_eq!(response, Some(1));
    // Check the index.
    assert_ne!(index, 0);
    // Check that it is applied to the FSM.
    assert_eq!(c.nodes[0].fsm.logs.len(), 1);
}

#[test]
fn triple_node() {
    let mut c = three();
    // Should be one leader, which all know.
    for n in &c.nodes {
        assert_eq!(n.raft.leader(), "addr-0");
        assert_eq!(n.raft.leader_with_id().1, "server-0");
    }
    assert_eq!(c.nodes[1].raft.state(), RaftState::Follower);
    assert_eq!(c.nodes[2].raft.state(), RaftState::Follower);
    // Should be able to apply.
    let t = c.apply(0, b"test");
    assert!(c.nodes[0].applied.contains_key(&t));
    for n in &c.nodes {
        assert_eq!(n.fsm.logs, vec![b"test".to_vec()]);
    }
}

#[test]
fn leader_fail() {
    let mut c = three();
    c.apply(0, b"test");
    c.ensure_same();
    // Disconnect the leader now.
    let old_term = c.nodes[0].raft.current_term();
    c.connected[0] = false;
    // Wait for a new leader: the other node notices the silence too, but
    // finds no majority yet.
    c.pass(100);
    assert!(!c.time_out(2));
    c.elect(1);
    // Ensure the term is greater.
    assert!(c.nodes[1].raft.current_term() > old_term);

    // Apply should not work on the old leader: it cannot reach a quorum and
    // steps down at the lease check.
    let t1 = c.apply(0, b"fail");
    assert!(!c.nodes[0].applied.contains_key(&t1));
    let now = c.now;
    let node = &mut c.nodes[0];
    let ls = node.leading.take().unwrap();
    node.raft.core.check_leader_lease(&ls, now);
    node.leading = Some(ls);
    node.settle(now);
    assert_eq!(node.raft.state(), RaftState::Follower);

    // Apply should work on the new leader.
    let t2 = c.apply(1, b"apply");
    assert!(c.nodes[1].applied.contains_key(&t2));

    // The old leader's apply must fail with leadership lost.
    assert!(matches!(
        c.nodes[0].failed[&t1],
        RaftError::LeadershipLost
    ));

    // Reconnect the networks.
    c.connected[0] = true;
    c.replicate(1);
    c.ensure_same();
    // Check two entries are applied to the FSMs.
    for n in &c.nodes {
        assert_eq!(n.fsm.logs, vec![b"test".to_vec(), b"apply".to_vec()]);
    }
}

#[test]
fn apply_non_leader() {
    let mut c = three();
    let t = c.apply(1, b"test");
    assert!(matches!(c.nodes[1].failed[&t], RaftError::NotLeader));
}

#[test]
fn apply_concurrent() {
    let mut c = three();
    // Many clients at once: one batch of entries.
    let now = c.now;
    let mut futures = Vec::new();
    for i in 0..100u64 {
        futures.push(Raft::apply(format!("test{}", i).as_bytes(), 1000 + i));
    }
    let node = &mut c.nodes[0];
    let mut ls = node.leading.take().unwrap();
    assert!(matches!(
        node.raft
            .core
            .dispatch_logs(&mut ls, &mut node.logs, futures, now),
        Dispatch::Written
    ));
    node.leading = Some(ls);
    c.replicate(0);
    for i in 0..100u64 {
        let (index, response) = c.nodes[0].applied[&(1000 + i)];
        // The configuration and the no-op come before.
        assert_eq!(index, 3 + i);
        assert_eq!(response, Some(1 + i as usize));
    }
    // Check the FSMs.
    c.ensure_same();
    assert_eq!(c.nodes[0].fsm.logs.len(), 100);
}

#[test]
fn barrier() {
    let mut c = three();
    for i in 0..100 {
        c.apply(0, format!("test{}", i).as_bytes());
    }
    // Wait for a barrier complete.
    let ticket = c.ticket();
    c.submit(0, Raft::barrier(ticket));
    let (index, response) = c.nodes[0].applied[&ticket];
    assert_eq!(index, 103);
    assert_eq!(response, None);
    // Ensure all the logs are the same.
    c.ensure_same();
    assert_eq!(c.nodes[0].fsm.logs.len(), 100);
}

#[test]
fn behind_follower() {
    let mut c = three();
    assert!(c.nodes[2].raft.last_contact().is_some());
    c.connected[2] = false;
    // Commit a lot of things.
    let mut last = 0;
    for i in 0..100 {
        last = c.apply(0, format!("test{}", i).as_bytes());
    }
    assert!(c.nodes[0].applied.contains_key(&last));
    assert_eq!(c.nodes[2].fsm.logs.len(), 0);
    // Reconnect the behind node.
    c.connected[2] = true;
    c.replicate(0);
    c.ensure_same();
    assert_eq!(c.nodes[2].fsm.logs.len(), 100);
    assert_eq!(c.nodes[0].raft.state(), RaftState::Leader);
}

#[test]
fn append_entry() {
    let mut c = three();
    let term = c.nodes[0].raft.current_term();
    let req = AppendEntriesRequest {
        header: RPCHeader {
            protocol_version: 3,
            id: c.nodes[0].raft.local_id(),
            addr: c.nodes[0].raft.local_addr(),
        },
        term: term + 1,
        prev_log_entry: 0,
        prev_log_term: term,
        entries: vec![Log {
            index: 1,
            term: term + 1,
            log_type: LogType::Command,
            data: b"log 1".to_vec(),
            ..Default::default()
        }],
        leader_commit_index: 90,
    };
    let resp = c
        .call(
            0,
            "addr-1",
            RPCCommand::AppendEntries(copy_request(&req)),
            None,
        )
        .and_then(|r| r.into_append_entries())
        .expect("append request failed");
    assert!(resp.success);

    // A request with an empty header identity also succeeds.
    let mut req2 = req;
    req2.header.id = String::new();
    req2.header.addr = String::new();
    let resp2 = c
        .call(0, "addr-1", RPCCommand::AppendEntries(req2), None)
        .and_then(|r| r.into_append_entries())
        .expect("append request failed");
    assert!(resp2.success);
}

#[test]
fn pre_vote_enabled_election() {
    let mut c = three();
    let t = c.apply(0, b"test");
    assert!(c.nodes[0].applied.contains_key(&t));
    c.ensure_same();
    // A partitioned node cannot win a pre-vote, and its term does not grow.
    let term = c.nodes[2].raft.current_term();
    c.connected[2] = false;
    for _ in 0..5 {
        c.pass(100);
        assert!(!c.time_out(2));
        c.nodes[2].raft.core.set_state(RaftState::Follower);
    }
    assert_eq!(c.nodes[2].raft.current_term(), term);
    // It rejoins cleanly.
    c.connected[2] = true;
    c.replicate(0);
    c.apply(0, b"more");
    c.ensure_same();
    assert_eq!(c.nodes[0].raft.current_term(), term);
}

#[test]
fn pre_vote_disabled_election() {
    let conf = || {
        let mut conf = inmem_config();
        conf.pre_vote_disabled = true;
        conf
    };
    let mut c = make_cluster(3, &conf);
    c.elect(0);
    let t = c.apply(0, b"test");
    assert!(c.nodes[0].applied.contains_key(&t));
    c.ensure_same();
    // Without pre-votes the term of a partitioned node grows.
    let term = c.nodes[2].raft.current_term();
    c.connected[2] = false;
    c.pass(100);
    assert!(!c.time_out(2));
    assert_eq!(c.nodes[2].raft.current_term(), term + 1);
}

#[test]
fn verify_leader() {
    let mut c = three();
    let ticket = c.ticket();
    let node = &mut c.nodes[0];
    let mut ls = node.leading.take().unwrap();
    assert!(!node.raft.core.verify_leader(&mut ls, ticket));
    node.leading = Some(ls);
    assert!(!c.nodes[0].applied.contains_key(&ticket));
    c.replicate(0);
    assert!(c.nodes[0].applied.contains_key(&ticket));

    assert!(matches!(
        c.nodes[1].raft.refusal(ClientRequest::VerifyLeader),
        Some(RaftError::NotLeader)
    ));
}

#[test]
fn a_single_node_verifies_itself() {
    let mut c = make_cluster(1, &inmem_config);
    c.elect(0);
    let node = &mut c.nodes[0];
    let mut ls = node.leading.take().unwrap();
    assert!(node.raft.core.verify_leader(&mut ls, 7));
}

#[test]
fn request_vote_stale_term_rejected() {
    let mut c = three();
    let req = RequestVoteRequest {
        header: RPCHeader {
            protocol_version: 3,
            id: c.nodes[0].raft.local_id(),
            addr: c.nodes[0].raft.local_addr(),
        },
        term: 0,
        last_log_index: 0,
        last_log_term: 0,
        leadership_transfer: false,
    };
    let resp = c
        .call(0, "addr-1", RPCCommand::RequestVote(req), None)
        .and_then(|r| r.into_request_vote())
        .expect("vote request failed");
    assert!(!resp.granted, "stale vote request must not be granted");
}

#[test]
fn a_vote_is_given_once_per_term() {
    let mut c = make_cluster(3, &inmem_config);
    let ask = |id: &str, addr: &str| RequestVoteRequest {
        header: RPCHeader {
            protocol_version: 3,
            id: id.into(),
            addr: addr.into(),
        },
        term: 5,
        last_log_index: 1,
        last_log_term: 1,
        leadership_transfer: false,
    };
    let mut granted = |c: &mut Cluster, req| {
        c.call(0, "addr-2", RPCCommand::RequestVote(req), None)
            .and_then(|r| r.into_request_vote())
            .unwrap()
            .granted
    };
    assert!(granted(&mut c, ask("server-0", "addr-0")));
    // Asked again, the same candidate has the vote; another one has not.
    assert!(granted(&mut c, ask("server-0", "addr-0")));
    assert!(!granted(&mut c, ask("server-1", "addr-1")));
    // A candidate whose log is behind gets no vote in any term.
    let mut behind = ask("server-1", "addr-1");
    behind.term = 6;
    behind.last_log_index = 0;
    behind.last_log_term = 0;
    assert!(!granted(&mut c, behind));
    assert_eq!(c.nodes[2].raft.current_term(), 6);
}

#[test]
fn a_candidate_keeps_its_own_vote() {
    let conf = || {
        let mut conf = inmem_config();
        conf.pre_vote_disabled = true;
        conf
    };
    let mut c = make_cluster(3, &conf);
    // Alone, the candidate votes for itself and wins nothing.
    c.connected[0] = false;
    c.pass(100);
    assert!(!c.time_out(0));
    c.connected[0] = true;
    let term = c.nodes[0].raft.current_term();
    assert_eq!(term, 2);
    let ask = |id: &str, addr: &str| RequestVoteRequest {
        header: RPCHeader {
            protocol_version: 3,
            id: id.into(),
            addr: addr.into(),
        },
        term,
        last_log_index: 9,
        last_log_term: 1,
        leadership_transfer: false,
    };
    let req = ask("server-1", "addr-1");
    let resp = c
        .call(1, "addr-0", RPCCommand::RequestVote(req), None)
        .and_then(|r| r.into_request_vote())
        .unwrap();
    assert!(!resp.granted);
    let req = ask("server-0", "addr-0");
    let resp = c
        .call(1, "addr-0", RPCCommand::RequestVote(req), None)
        .and_then(|r| r.into_request_vote())
        .unwrap();
    assert!(resp.granted);
}

#[test]
fn logs_match_after_a_conflict() {
    let mut c = three();
    c.apply(0, b"kept");
    let kept: Vec<u64> = (1..=c.nodes[0].raft.last_index())
        .map(|i| c.nodes[0].logs.get_log(i).unwrap().term)
        .collect();
    // Entries of the old leader that reach nobody.
    c.connected[0] = false;
    for _ in 0..3 {
        c.apply(0, b"lost");
    }
    c.pass(100);
    assert!(!c.time_out(2));
    c.elect(1);
    c.apply(1, b"new");
    c.connected[0] = true;
    c.replicate(1);
    c.replicate(1);
    let last = c.nodes[1].raft.last_index();
    for n in &c.nodes {
        assert_eq!(n.raft.last_index(), last);
        for i in 1..=last {
            let ours = n.logs.get_log(i).unwrap();
            let theirs = c.nodes[1].logs.get_log(i).unwrap();
            assert_eq!(ours.term, theirs.term);
            assert_eq!(ours.data, theirs.data);
            if i as usize <= kept.len() {
                assert_eq!(ours.term, kept[i as usize - 1]);
            }
        }
        assert!(n.logs.get_log(last + 1).is_err());
    }
    c.ensure_same();
}

#[test]
fn requests_of_other_versions_are_refused() {
    let mut c = three();
    let req = TimeoutNowRequest {
        header: RPCHeader {
            protocol_version: 1,
            id: "server-0".into(),
            addr: "addr-0".into(),
        },
    };
    let err = c
        .call(0, "addr-1", RPCCommand::TimeoutNow(req), None)
        .unwrap_err();
    assert!(matches!(err, RaftError::UnsupportedProtocol));
}

#[test]
fn snapshot_restore_single_node() {
    let conf = || {
        let mut conf = inmem_config();
        conf.trailing_logs = 10;
        conf
    };
    let mut c = make_cluster(1, &conf);
    c.elect(0);
    for i in 0..100 {
        c.apply(0, format!("test{}", i).as_bytes());
    }
    c.take_snapshot(0).expect("snapshot failed");

    // Exactly one snapshot should exist.
    let snaps = c.nodes[0].snaps.list().unwrap();
    assert_eq!(snaps.len(), 1);
    // Logs should be trimmed, keeping the trailing entries behind the
    // snapshot index.
    let first = c.nodes[0].logs.first_index().unwrap();
    assert_eq!(first, snaps[0].index - 10 + 1);

    // Restart the node on top of the same stores.
    let old = c.nodes.pop().unwrap();
    let mut peer = conf();
    peer.local_id = "server-0".into();
    let node = start(peer, "addr-0".into(), old.logs, old.stable, old.snaps);
    // After restart the FSM should hold all the logs (from the snapshot).
    assert_eq!(node.fsm.logs.len(), 100);
    // The new node should know the applied index is the snapshot index.
    assert_eq!(node.raft.applied_index(), snaps[0].index);
    assert_eq!(node.raft.state(), RaftState::Follower);
    assert_eq!(node.raft.get_configuration().configuration.servers.len(), 1);
}

#[test]
fn a_node_may_start_without_restoring() {
    let mut c = make_cluster(1, &inmem_config);
    c.elect(0);
    c.apply(0, b"one");
    c.take_snapshot(0).unwrap();
    let old = c.nodes.pop().unwrap();
    let mut peer = inmem_config();
    peer.local_id = "server-0".into();
    peer.no_snapshot_restore_on_start = true;
    let index = old.raft.applied_index();
    let node = start(peer, "addr-0".into(), old.logs, old.stable, old.snaps);
    assert!(node.fsm.logs.is_empty());
    assert_eq!(node.raft.applied_index(), index);
}

#[test]
fn snapshot_basic() {
    let mut c = make_cluster(1, &inmem_config);
    c.elect(0);
    for i in 0..5 {
        c.apply(0, format!("test{}", i).as_bytes());
    }
    c.take_snapshot(0).expect("snapshot failed");
    let snaps = c.nodes[0].snaps.list().unwrap();
    assert_eq!(snaps.len(), 1);
    let snap = &snaps[0];
    // The snapshot covers the latest applied log entry.
    assert_eq!(snap.term, c.nodes[0].raft.current_term());
    assert_eq!(snap.index, c.nodes[0].raft.applied_index());
    // The snapshot data can be opened and has size > 0.
    let (meta, data) = c.nodes[0].snaps.open(&snap.id).unwrap();
    assert_eq!(meta.id, snap.id);
    assert!(!data.is_empty());
}

#[test]
fn an_empty_machine_has_nothing_to_snapshot() {
    let mut c = make_cluster(1, &inmem_config);
    let err = c.take_snapshot(0).unwrap_err();
    assert!(matches!(err, RaftError::NothingNewToSnapshot));
}

#[test]
fn a_follower_far_behind_is_sent_the_snapshot() {
    let conf = || {
        let mut conf = inmem_config();
        conf.trailing_logs = 3;
        conf
    };
    let mut c = make_cluster(3, &conf);
    c.elect(0);
    c.connected[2] = false;
    for i in 0..20 {
        c.apply(0, format!("test{}", i).as_bytes());
    }
    c.take_snapshot(0).unwrap();
    c.apply(0, b"after");
    c.connected[2] = true;
    c.replicate(0);
    c.ensure_same();
    assert_eq!(c.nodes[2].fsm.logs.len(), 21);
    assert_eq!(c.nodes[2].snaps.list().unwrap().len(), 1);
    assert_eq!(
        c.nodes[2].raft.last_index(),
        c.nodes[0].raft.last_index()
    );
}

#[test]
fn snapshots_trim_all_but_the_trailing_entries() {
    let conf = || {
        let mut conf = inmem_config();
        conf.trailing_logs = 3;
        conf.snapshot_threshold = 8;
        conf
    };
    let mut c = make_cluster(1, &conf);
    c.elect(0);
    for i in 0..5 {
        c.apply(0, format!("test{}", i).as_bytes());
    }
    let node = &c.nodes[0];
    assert_eq!(node.logs.last_index().unwrap(), 7);
    assert!(!node.raft.core.should_snapshot(&node.logs).unwrap());
    c.apply(0, b"one more");
    let node = &c.nodes[0];
    assert!(node.raft.core.should_snapshot(&node.logs).unwrap());
    assert_eq!(node.raft.core.range_to_compact(1, 8), Some((1, 5)));
    assert_eq!(node.raft.core.range_to_compact(1, 2), Some((1, 2)));
    assert_eq!(node.raft.core.range_to_compact(6, 8), None);
    c.take_snapshot(0).unwrap();
    let node = &c.nodes[0];
    assert_eq!(node.logs.first_index().unwrap(), 6);
    assert_eq!(node.logs.last_index().unwrap(), 8);
    assert!(matches!(node.logs.get_log(5), Err(RaftError::LogNotFound)));
    assert!(!node.raft.core.should_snapshot(&node.logs).unwrap());
}

#[test]
fn a_shipped_snapshot_is_refused_with_a_reason() {
    let mut c = three();
    let now = c.now;
    let term = c.nodes[1].raft.current_term();
    let header = c.nodes[0].raft.core.rpc_header();
    let ship = |term: u64, version: u8, configuration: Vec<u8>, size: u64| {
        RPCCommand::InstallSnapshot(InstallSnapshotRequest {
            header: header.clone(),
            snapshot_version: version,
            term,
            last_log_index: 40,
            last_log_term: term,
            configuration,
            configuration_index: 30,
            size,
        })
    };
    let members = encode_configuration(&c.nodes[0].raft.get_configuration().configuration);
    let node = &mut c.nodes[1];
    let err = node.handle(ship(term, 1, members.clone(), 0), None, now);
    assert_eq!(err.unwrap_err().message(), "missing snapshot data");
    let err = node.handle(ship(term, 2, members.clone(), 0), Some(Vec::new()), now);
    assert_eq!(err.unwrap_err().message(), "unsupported snapshot version 2");
    let err = node.handle(ship(term, 1, members.clone(), 9), Some(vec![1]), now);
    assert_eq!(err.unwrap_err().message(), "short read");
    // An older term gets ours; nothing else happens.
    match node.handle(ship(term - 1, 1, members.clone(), 0), Some(Vec::new()), now) {
        Ok(RPCResponse::InstallSnapshot(resp)) => assert!(!resp.success && resp.term == term),
        other => panic!("unexpected answer {:?}", other),
    }
    // A newer term is taken up before anything else can fail.
    let err = node.handle(ship(term + 3, 1, vec![0xc1], 0), Some(Vec::new()), now);
    assert!(matches!(err, Err(RaftError::Decode(_))));
    assert_eq!(node.raft.current_term(), term + 3);
    assert_eq!(
        node.stable.get_u64(b"CurrentTerm").unwrap(),
        Some(term + 3)
    );
    // A snapshot that fits is applied, and its configuration is settled.
    let data = rmp_serde::to_vec(&vec![b"x".to_vec()]).unwrap();
    let size = data.len() as u64;
    match node.handle(ship(term + 3, 1, members, size), Some(data), now) {
        Ok(RPCResponse::InstallSnapshot(resp)) => assert!(resp.success && resp.term == term + 3),
        other => panic!("unexpected answer {:?}", other),
    }
    assert_eq!(node.raft.applied_index(), 40);
    assert_eq!(node.raft.last_index(), 40);
    assert_eq!(node.fsm.logs, vec![b"x".to_vec()]);
    let conf = node.raft.core.answer_configurations();
    assert_eq!((conf.latest_index, conf.committed_index), (30, 30));
}

#[test]
fn a_restored_snapshot_reaches_the_followers() {
    let mut c = three();
    c.apply(0, b"old");
    // Restore a user's snapshot on the leader.
    let data = rmp_serde::to_vec(&vec![b"x".to_vec(), b"y".to_vec()]).unwrap();
    let meta = SnapshotMeta {
        version: 1,
        id: "backup".into(),
        index: 50,
        term: 1,
        configuration: Default::default(),
        configuration_index: 1,
        size: data.len() as u64,
    };
    let node = &mut c.nodes[0];
    let mut ls = node.leading.take().unwrap();
    let plan = node.raft.core.begin_restore(&mut ls, &meta).unwrap();
    assert_eq!(plan.create.index, 51);
    let spill = spill_snapshot(&mut node.snaps, &plan.create, &data, meta.size);
    let id = restored_copy(spill, meta.size).unwrap();
    let opened = node.snaps.open(&id);
    node.runner.restore(&mut node.fsm, &id, opened).unwrap();
    node.raft
        .core
        .finish_restore(plan.create.index, plan.create.term);
    node.leading = Some(ls);
    // A no-op shows that the snapshot reached the followers.
    let ticket = c.ticket();
    c.submit(0, Raft::restore_noop(ticket));
    assert_eq!(c.nodes[0].applied[&ticket].0, 52);
    for n in &c.nodes {
        assert_eq!(n.fsm.logs, vec![b"x".to_vec(), b"y".to_vec()]);
    }
    // The configuration is the cluster's own.
    assert_eq!(
        c.nodes[1].raft.get_configuration().configuration.servers.len(),
        3
    );
}

#[test]
fn a_restore_aborts_what_is_in_flight() {
    let mut c = three();
    c.connected = vec![true, false, false];
    let tickets = [c.apply(0, b"one"), c.apply(0, b"two")];
    let meta = SnapshotMeta {
        version: 1,
        ..Default::default()
    };
    let node = &mut c.nodes[0];
    let mut ls = node.leading.take().unwrap();
    let plan = node.raft.core.begin_restore(&mut ls, &meta).unwrap();
    assert_eq!(plan.aborted.len(), 2);
    for (request, ticket) in plan.aborted.iter().zip(tickets) {
        assert_eq!(request.ticket, Some(ticket));
        assert!(matches!(request.error, RaftError::AbortedByRestore));
    }
    assert!(ls.inflight.is_empty());
}

#[test]
fn entries_are_gathered_up_to_a_limit() {
    let mut c = three();
    let core = &mut c.nodes[0].raft.core;
    core.conf.max_append_entries = 2;
    // The first one, and two more.
    assert!(core.gathers_more(1));
    assert!(core.gathers_more(2));
    assert!(!core.gathers_more(3));
}

#[test]
fn a_transfer_that_ended_lets_entries_in_again() {
    let mut c = three();
    let node = &mut c.nodes[0];
    let mut ls = node.leading.take().unwrap();
    node.raft.core.begin_transfer(&mut ls, None, None).unwrap();
    assert!(RaftCore::apply_refusal(&ls).is_some());
    RaftCore::end_transfer(&mut ls);
    assert!(RaftCore::apply_refusal(&ls).is_none());
}

#[test]
fn a_restore_of_the_wrong_size_is_refused() {
    let mut c = three();
    let node = &mut c.nodes[0];
    let mut ls = node.leading.take().unwrap();
    let meta = SnapshotMeta {
        version: 1,
        size: 3,
        ..Default::default()
    };
    let plan = node.raft.core.begin_restore(&mut ls, &meta).unwrap();
    let spill = spill_snapshot(&mut node.snaps, &plan.create, b"four", 3);
    match restored_copy(spill, 3).unwrap_err() {
        RaftError::Other(text) => assert_eq!(
            text,
            "failed to write snapshot, size didn't match (4 != 3)"
        ),
        other => panic!("unexpected error: {:?}", other),
    }
    // The unfinished snapshot is gone.
    assert!(node.snaps.list().unwrap().is_empty());
    let unknown = SnapshotMeta {
        version: 2,
        ..Default::default()
    };
    assert!(node.raft.core.begin_restore(&mut ls, &unknown).is_err());
}

#[test]
fn restore_rejected_on_follower() {
    let c = three();
    assert!(matches!(
        c.nodes[1].raft.refusal(ClientRequest::Restore),
        Some(RaftError::NotLeader)
    ));
    assert!(c.nodes[0].raft.refusal(ClientRequest::Restore).is_none());
}

#[test]
fn fsm_snapshot_restore() {
    let mut fsm = MockFsm {
        logs: vec![b"a".to_vec(), b"b".to_vec(), b"c".to_vec()],
        configurations: Vec::new(),
    };
    let snap = fsm.snapshot().unwrap();
    let mut store = InmemSnapshotStore::new();
    let sink = store.create(1, 7, 3, &Default::default(), 1).unwrap();
    persist_and_release(snap, &mut store, sink).unwrap();

    // Read it back and restore into a fresh FSM.
    let snaps = store.list().unwrap();
    assert_eq!(snaps.len(), 1);
    let (meta, reader) = store.open(&snaps[0].id).unwrap();
    assert_eq!(meta.index, 7);
    assert_eq!(meta.term, 3);

    let mut restored = MockFsm::default();
    restored.restore(reader).unwrap();
    assert_eq!(
        restored.logs,
        vec![b"a".to_vec(), b"b".to_vec(), b"c".to_vec()]
    );
}

type Filter = fn(&Observation) -> bool;

/// Delivers observations to the observers, as far as each has room.
fn deliver(
    seen: Vec<ObservationData>,
    handle: &mut ObserverHandle<Filter>,
    out: &mut Vec<Observation>,
) {
    for data in seen {
        let observation = Observation { data };
        if handle.matches(&observation) {
            if out.len() < handle.observer.capacity() {
                out.push(observation);
                handle.record(raft::observer::Delivery::Delivered);
            } else {
                handle.record(raft::observer::Delivery::Full);
            }
        }
    }
}

#[test]
fn observer_receives_state_transitions() {
    let mut c = make_cluster(1, &inmem_config);
    let mut observers: Observers<Filter> = Observers::new();
    let id = observers.register(Observer::new(64, false, None));
    c.elect(0);
    c.apply(0, b"hi");
    let seen = std::mem::take(&mut c.nodes[0].seen);
    let mut out = Vec::new();
    deliver(seen, &mut observers.handles[0], &mut out);
    assert!(out
        .iter()
        .any(|o| matches!(o.data, ObservationData::State(RaftState::Leader))));
    assert!(observers.handles[0].num_observed > 0);
    assert_eq!(observers.handles[0].num_dropped, 0);
    observers.deregister(id);
    assert!(observers.handles.is_empty());
}

#[test]
fn observer_filter_drops_non_matches() {
    let mut c = make_cluster(1, &inmem_config);
    let filter: Filter = |o| {
        matches!(
            o.data,
            ObservationData::Leader(_) | ObservationData::State(RaftState::Shutdown)
        )
    };
    let mut observers: Observers<Filter> = Observers::new();
    observers.register(Observer::new(64, false, Some(filter)));
    c.elect(0);
    c.apply(0, b"hi");
    let seen = std::mem::take(&mut c.nodes[0].seen);
    let mut out = Vec::new();
    deliver(seen, &mut observers.handles[0], &mut out);
    assert!(!out.is_empty(), "filter should pass the Leader transition");
    assert!(out
        .iter()
        .all(|o| matches!(o.data, ObservationData::Leader(_))));
}

/// Runs a transfer of leadership to its end.
fn transfer(c: &mut Cluster, i: usize, id: &str, addr: &str) -> Result<()> {
    c.nodes[i].raft.check_transfer(&Some(id.to_string()))?;
    let now = c.now;
    let node = &mut c.nodes[i];
    let mut ls = node.leading.take().unwrap();
    let target = node
        .raft
        .core
        .begin_transfer(&mut ls, Some(id.into()), Some(addr.into()));
    node.leading = Some(ls);
    let target = target?;
    c.replicate(i);
    let node = &mut c.nodes[i];
    let ls = node.leading.as_mut().unwrap();
    let k = ls.position(&target.id).unwrap();
    let next = ls.repl[k].next_index;
    ls.leadership_transfer_in_progress = false;
    let deadline = Instant {
        nanos: now.nanos + 50_000_000,
    };
    match node.raft.core.transfer_step(next, &target.id, now, deadline) {
        TransferStep::Send => {}
        TransferStep::Wait => panic!("the target should have caught up"),
        TransferStep::TimedOut(e) => return Err(e),
    }
    let req = TimeoutNowRequest {
        header: node.raft.core.rpc_header(),
    };
    c.call(i, &target.address, RPCCommand::TimeoutNow(req), None)?;
    Ok(())
}

#[test]
fn leadership_transfer_basic() {
    let mut c = three();
    transfer(&mut c, 0, "server-1", "addr-1").expect("leadership transfer should not error");
    assert_eq!(c.nodes[1].raft.state(), RaftState::Candidate);
    // The target stands at once, although the others hear of a leader.
    assert!(c.campaign(1));
    assert_eq!(c.nodes[1].raft.state(), RaftState::Leader);
    assert_eq!(c.nodes[0].raft.state(), RaftState::Follower);
    for n in &c.nodes {
        assert_eq!(n.raft.leader(), "addr-1");
    }
}

#[test]
fn leadership_transfer_unknown_target() {
    let mut c = three();
    let err = transfer(&mut c, 0, "not-a-member", "nowhere").unwrap_err();
    let msg = err.message();
    assert!(msg.contains("replication state") || msg.contains("cannot find"));
}

#[test]
fn leadership_transfer_to_self_rejected() {
    let mut c = three();
    let err = transfer(&mut c, 0, "server-0", "addr-0").unwrap_err();
    assert!(matches!(err, RaftError::Other(_)));
}

#[test]
fn requests_wait_for_a_transfer() {
    let mut c = three();
    let node = &mut c.nodes[0];
    let mut ls = node.leading.take().unwrap();
    node.raft.core.begin_transfer(&mut ls, None, None).unwrap();
    let err = node
        .raft
        .core
        .begin_transfer(&mut ls, None, None)
        .unwrap_err();
    assert!(matches!(err, RaftError::LeadershipTransferInProgress));
    node.leading = Some(ls);
    let t = c.apply(0, b"no");
    assert!(matches!(
        c.nodes[0].failed[&t],
        RaftError::LeadershipTransferInProgress
    ));
}

#[test]
fn a_leader_that_leaves_takes_nothing_new() {
    let mut c = three();
    let mut ls = c.nodes[0].leading.take().unwrap();
    assert!(RaftCore::apply_refusal(&ls).is_none());
    assert!(RaftCore::restore_refusal(&ls).is_none());
    ls.step_down = true;
    assert!(matches!(
        RaftCore::apply_refusal(&ls),
        Some(RaftError::NotLeader)
    ));
    assert!(RaftCore::restore_refusal(&ls).is_none());
    ls.leadership_transfer_in_progress = true;
    assert!(matches!(
        RaftCore::apply_refusal(&ls),
        Some(RaftError::LeadershipTransferInProgress)
    ));
    assert!(matches!(
        RaftCore::restore_refusal(&ls),
        Some(RaftError::LeadershipTransferInProgress)
    ));
}

#[test]
fn a_transfer_may_fail_at_the_target() {
    let reply = TimeoutNowResponse {
        header: RPCHeader::default(),
    };
    assert!(RaftCore::transfer_answer(Ok(reply), "server-1").is_ok());
    let err = RaftCore::transfer_answer(Err(RaftError::Timeout), "server-1").unwrap_err();
    assert_eq!(
        err.message(),
        format!(
            "failed to make TimeoutNow RPC to server-1: {}",
            RaftError::Timeout.message()
        )
    );
}

#[test]
fn a_snapshot_that_is_not_persisted_says_why() {
    assert!(persist_outcome(Ok(())).is_ok());
    let err = persist_outcome(Err(RaftError::Other("disk full".into()))).unwrap_err();
    assert_eq!(err.message(), "failed to persist snapshot: disk full");
}

/// Changes the membership through the leader.
fn change(
    c: &mut Cluster,
    i: usize,
    req: raft::configuration::ConfigurationChangeRequest,
) -> Result<()> {
    let now = c.now;
    let ticket = c.ticket();
    let node = &mut c.nodes[i];
    let mut ls = node.leading.take().unwrap();
    assert!(node.raft.core.configuration_change_stable(&ls));
    let next = match node.raft.core.prepare_configuration_change(&req) {
        Ok(next) => next,
        Err(e) => {
            node.leading = Some(ls);
            return Err(e);
        }
    };
    let data = encode_configuration(&next);
    node.raft.core.append_configuration_entry(
        &mut ls,
        &mut node.logs,
        next,
        data,
        Some(ticket),
        now,
    );
    assert!(!node.raft.core.configuration_change_stable(&ls));
    node.leading = Some(ls);
    c.replicate(i);
    Ok(())
}

#[test]
fn a_removed_follower_gets_no_more_entries() {
    let mut c = three();
    change(&mut c, 0, Raft::remove_server("server-2".into(), 0)).unwrap();
    let ls = c.nodes[0].leading.as_ref().unwrap();
    assert_eq!(ls.repl.len(), 1);
    assert!(ls.position("server-2").is_none());
    assert!(c.nodes[0]
        .seen
        .iter()
        .any(|o| matches!(o, ObservationData::Peer(p) if p.removed && p.peer.id == "server-2")));
    c.apply(0, b"without");
    assert_eq!(c.nodes[1].fsm.logs.len(), 1);
    assert_eq!(c.nodes[2].fsm.logs.len(), 0);
    assert_eq!(
        c.nodes[0].raft.get_configuration().configuration.servers.len(),
        2
    );
    assert_eq!(c.nodes[0].fsm.configurations.len(), 2);
}

#[test]
fn a_removed_leader_steps_down() {
    let mut c = three();
    change(&mut c, 0, Raft::remove_server("server-0".into(), 0)).unwrap();
    // The default is to shut down.
    assert_eq!(c.nodes[0].raft.state(), RaftState::Shutdown);
    assert!(!c.nodes[0].raft.shutdown());
}

#[test]
fn a_change_may_name_the_configuration_it_is_based_on() {
    let mut c = three();
    let err = change(&mut c, 0, Raft::demote_voter("server-2".into(), 9)).unwrap_err();
    assert!(err.message().contains("9"));
    change(&mut c, 0, Raft::demote_voter("server-2".into(), 1)).unwrap();
    assert!(!c.nodes[1]
        .raft
        .get_configuration()
        .configuration
        .has_vote("server-2"));
    let err = change(
        &mut c,
        0,
        Raft::add_voter("server-9".into(), "addr-1".into(), 0),
    )
    .unwrap_err();
    assert!(matches!(err, RaftError::Configuration(_)));
}

#[test]
fn a_silent_follower_is_observed() {
    let mut c = three();
    let now = c.now;
    let mut heartbeat = HeartbeatLoop::new();
    let node = &mut c.nodes[0];
    let mut ls = node.leading.take().unwrap();
    let wait = heartbeat.failed(&mut node.raft.core, &ls.repl[0]);
    assert_eq!(wait.as_millis(), 10);
    assert_eq!(heartbeat.failures, 1);
    for _ in 0..5 {
        heartbeat.failed(&mut node.raft.core, &ls.repl[0]);
    }
    // Never more than half the heartbeat timeout.
    let wait = heartbeat.failed(&mut node.raft.core, &ls.repl[0]);
    assert_eq!(wait.as_millis(), 25);
    heartbeat.replied(&mut node.raft.core, &mut ls.repl[0], now);
    assert_eq!(heartbeat.failures, 0);
    heartbeat.replied(&mut node.raft.core, &mut ls.repl[0], now);
    let seen = node.raft.core.take_observations();
    let failed = seen
        .iter()
        .filter(|o| matches!(o, ObservationData::FailedHeartbeat(f) if f.peer_id == "server-1"))
        .count();
    let resumed = seen
        .iter()
        .filter(|o| matches!(o, ObservationData::ResumedHeartbeat(f) if f.peer_id == "server-1"))
        .count();
    assert_eq!((failed, resumed), (7, 1));
    node.leading = Some(ls);
}

#[test]
fn statistics_tell_the_state() {
    let mut c = three();
    c.apply(0, b"test");
    let stats: HashMap<String, String> = c.nodes[0]
        .raft
        .stats("members".into())
        .into_iter()
        .collect();
    assert_eq!(stats.len(), 12);
    assert_eq!(stats["state"], "Leader");
    assert_eq!(stats["term"], "2");
    assert_eq!(stats["last_log_index"], "3");
    assert_eq!(stats["last_log_term"], "2");
    assert_eq!(stats["commit_index"], "3");
    assert_eq!(stats["applied_index"], "3");
    assert_eq!(stats["last_snapshot_index"], "0");
    assert_eq!(stats["protocol_version"], "3");
    assert_eq!(stats["latest_configuration_index"], "1");
    assert_eq!(stats["latest_configuration"], "members");
    assert_eq!(stats["num_peers"], "2");
}

#[test]
fn a_running_cluster_is_not_bootstrapped_again() {
    let c = three();
    assert!(matches!(
        c.nodes[0].raft.refusal(ClientRequest::Bootstrap),
        Some(RaftError::CantBootstrap)
    ));
    assert!(c.nodes[1]
        .raft
        .refusal(ClientRequest::ReadConfigurations)
        .is_none());
    let mut peer = inmem_config();
    peer.local_id = "server-0".into();
    let mut c = c;
    let node = &mut c.nodes[0];
    let err = bootstrap_cluster(
        &peer,
        &mut node.logs,
        &mut node.stable,
        &node.snaps,
        &node.raft.core.configurations.latest,
        Ok(Vec::new()),
    )
    .unwrap_err();
    assert!(matches!(err, RaftError::CantBootstrap));
}
