//! Bringing one follower up to date, reply by reply.

use raft::apply::CommitTuple;
use raft::commitment::Commitment;
use raft::configuration::{Configuration, Server, ServerSuffrage};
use raft::error::{RaftError, Result};
use raft::fsm::{BatchingFSM, ConfigurationStore, FSMSnapshot, FsmRunner, FSM};
use raft::leadership::lease_check_interval;
use raft::log::{Log, LogType};
use raft::replication::{
    heartbeat_retry_wait, pipeline_next, snapshot_to_ship, step_for, FollowerReplication,
    ReplicateStep, ReplicationLoop, ReplicationMode, ReplyStep, Wakeup,
};
use raft::snapshot::SnapshotStore;
use raft::time::{Duration, Instant};
use raft::transport::{
    AppendEntriesRequest, AppendEntriesResponse, InstallSnapshotRequest, InstallSnapshotResponse,
    RPCHeader,
};

fn server(id: &str) -> Server {
    Server {
        suffrage: ServerSuffrage::Voter,
        id: id.into(),
        address: format!("{}-addr", id),
    }
}

fn membership() -> Configuration {
    Configuration {
        servers: vec![server("a"), server("b"), server("c")],
    }
}

fn from(id: &str) -> RPCHeader {
    RPCHeader {
        protocol_version: 3,
        id: id.into(),
        addr: format!("{}-addr", id),
    }
}

fn follower(next_index: u64, failures: u64) -> FollowerReplication {
    FollowerReplication {
        peer: server("b"),
        current_term: 4,
        next_index,
        last_contact: Instant { nanos: 1 },
        notify: vec![7, 8, 7],
        failures,
    }
}

fn entry(index: u64, log_type: LogType) -> Log {
    Log {
        index,
        term: 4,
        log_type,
        data: vec![index as u8],
        extensions: Vec::new(),
        appended_at: None,
    }
}

fn request(first: u64, last: u64) -> AppendEntriesRequest {
    AppendEntriesRequest {
        header: from("a"),
        term: 4,
        prev_log_entry: first - 1,
        prev_log_term: 4,
        entries: (first..=last).map(|i| entry(i, LogType::Command)).collect(),
        leader_commit_index: 0,
    }
}

fn reply(term: u64, last_log: u64, success: bool) -> AppendEntriesResponse {
    AppendEntriesResponse {
        header: from("b"),
        term,
        last_log,
        success,
        no_retry_backoff: false,
    }
}

const NOW: Instant = Instant { nanos: 50 };

#[test]
fn an_acknowledged_append_moves_on() {
    let mut commitment = Commitment::new(&membership(), 1);
    commitment.match_index("a", 9);
    let mut repl = follower(5, 3);
    let mut pipeline = false;
    let (step, voted, way) = repl.append_replied(
        &mut commitment,
        &request(5, 7),
        &reply(4, 7, true),
        9,
        &mut pipeline,
        NOW,
    );
    assert_eq!(step, ReplyStep::More);
    assert_eq!(voted, vec![7, 8, 7]);
    assert!(way && pipeline);
    assert_eq!(repl.next_index, 8);
    assert_eq!(repl.failures, 0);
    assert_eq!(repl.last_contact, NOW);
    assert!(repl.notify.is_empty());
    // Two of three store the log up to there.
    assert_eq!(commitment.commit_index(), 7);
    let (step, voted, _) = repl.append_replied(
        &mut commitment,
        &request(8, 9),
        &reply(4, 9, true),
        9,
        &mut pipeline,
        NOW,
    );
    assert_eq!(step, ReplyStep::Done);
    assert!(voted.is_empty());
    assert_eq!(commitment.commit_index(), 9);
}

#[test]
fn a_refused_append_goes_back() {
    let mut commitment = Commitment::new(&membership(), 1);
    let mut pipeline = false;
    // One back, no further than just past the follower's log, and never
    // below the first entry.
    for (next, last_log, then) in [(8, 7, 7), (8, 2, 3), (8, 100, 7), (1, 0, 1), (2, 0, 1)] {
        let mut repl = follower(next, 0);
        let (step, voted, _) = repl.append_replied(
            &mut commitment,
            &request(next, next),
            &reply(4, last_log, false),
            9,
            &mut pipeline,
            NOW,
        );
        assert_eq!(step, ReplyStep::More);
        assert!(voted.is_empty());
        assert_eq!(repl.next_index, then);
        assert_eq!(repl.failures, 1);
        assert_eq!(repl.notify, vec![7, 8, 7]);
    }
    let mut repl = follower(8, 5);
    let hasty = AppendEntriesResponse {
        no_retry_backoff: true,
        ..reply(4, 2, false)
    };
    repl.append_replied(
        &mut commitment,
        &request(8, 8),
        &hasty,
        9,
        &mut pipeline,
        NOW,
    );
    assert_eq!(repl.failures, 0);
    assert!(!pipeline);
    assert_eq!(commitment.commit_index(), 0);
}

#[test]
fn a_newer_term_stops_replication() {
    let mut commitment = Commitment::new(&membership(), 1);
    let mut pipeline = false;
    let mut repl = follower(8, 2);
    let (step, voted, way) = repl.append_replied(
        &mut commitment,
        &request(8, 9),
        &reply(5, 9, true),
        9,
        &mut pipeline,
        NOW,
    );
    assert_eq!(step, ReplyStep::Stop);
    assert_eq!(voted, vec![7, 8, 7]);
    assert!(!way && !pipeline);
    assert_eq!(repl.next_index, 8);
    assert_eq!(repl.last_contact, Instant { nanos: 1 });
    let mut repl = follower(8, 2);
    let (goes_on, steps_down, voted) =
        repl.pipeline_replied(&mut commitment, &request(8, 9), &reply(5, 9, true), NOW);
    assert!(!goes_on && steps_down);
    assert_eq!(voted, vec![7, 8, 7]);
    assert_eq!(commitment.commit_index(), 0);
}

#[test]
fn a_pipeline_ends_with_a_refusal() {
    let mut commitment = Commitment::new(&membership(), 1);
    commitment.match_index("a", 9);
    let mut repl = follower(8, 0);
    let (goes_on, steps_down, voted) =
        repl.pipeline_replied(&mut commitment, &request(8, 9), &reply(4, 9, true), NOW);
    assert!(goes_on && !steps_down);
    assert_eq!(voted, vec![7, 8, 7]);
    assert_eq!(repl.next_index, 10);
    assert_eq!(commitment.commit_index(), 9);
    let (goes_on, steps_down, voted) =
        repl.pipeline_replied(&mut commitment, &request(10, 11), &reply(4, 3, false), NOW);
    assert!(!goes_on && !steps_down);
    assert!(voted.is_empty());
    assert_eq!(repl.next_index, 10);
    assert_eq!(pipeline_next(10, &request(10, 12).entries), 13);
    assert_eq!(pipeline_next(10, &Vec::new()), 10);
}

#[test]
fn a_shipped_snapshot_counts_as_stored() {
    let ship = InstallSnapshotRequest {
        header: from("a"),
        snapshot_version: 1,
        term: 4,
        last_log_index: 20,
        last_log_term: 3,
        configuration: Vec::new(),
        configuration_index: 1,
        size: 0,
    };
    let answer = |term: u64, success: bool| InstallSnapshotResponse {
        header: from("b"),
        term,
        success,
    };
    let mut commitment = Commitment::new(&membership(), 1);
    commitment.match_index("a", 25);
    let mut repl = follower(3, 1);
    let (step, voted, way) =
        repl.snapshot_replied(&mut commitment, &ship, &answer(4, true), 25, NOW);
    assert_eq!(step, ReplyStep::More);
    assert_eq!(voted, vec![7, 8, 7]);
    assert!(way);
    assert_eq!((repl.next_index, repl.failures), (21, 0));
    assert_eq!(commitment.commit_index(), 20);
    let (step, voted, _) =
        repl.snapshot_replied(&mut commitment, &ship, &answer(4, false), 20, NOW);
    assert_eq!(step, ReplyStep::Done);
    assert!(voted.is_empty());
    assert_eq!((repl.next_index, repl.failures), (21, 1));
    let (step, _, way) = repl.snapshot_replied(&mut commitment, &ship, &answer(5, true), 25, NOW);
    assert_eq!(step, ReplyStep::Stop);
    assert!(!way);
    let none = snapshot_to_ship(&Vec::new());
    assert!(matches!(none, Err(RaftError::Snapshot(m)) if m == "no snapshots found"));
}

#[test]
fn failures_slow_replication_down() {
    assert!(follower(1, 0).retry_wait().is_none());
    for (failures, millis) in [(1, 10), (3, 20), (12, 10_240), (900, 10_240)] {
        let wait = follower(1, failures).retry_wait().unwrap();
        assert_eq!(wait.as_millis(), millis);
    }
    // A heartbeat waits for half its timeout at most.
    let timeout = Duration::from_millis(100);
    for (failures, millis) in [(0, 10), (3, 20), (4, 40), (5, 50), (50, 50)] {
        assert_eq!(heartbeat_retry_wait(failures, timeout).as_millis(), millis);
    }
}

#[test]
fn verifications_are_voted_on_once() {
    let mut repl = follower(1, 0);
    repl.clean_notify(7);
    assert_eq!(repl.notify, vec![8]);
    assert_eq!(repl.take_notify(), vec![8]);
    assert!(repl.heartbeat_replied(NOW).is_empty());
    assert_eq!(repl.last_contact, NOW);
}

#[test]
fn replication_changes_its_mode() {
    let mut looping = ReplicationLoop::new();
    assert_eq!(looping.wake(Wakeup::Replicate(6)), Some(6));
    looping.round_done(false);
    assert_eq!(looping.mode, ReplicationMode::Standard);
    looping.allow_pipeline = true;
    looping.round_done(false);
    assert_eq!(looping.mode, ReplicationMode::Pipeline);
    assert!(!looping.allow_pipeline);
    looping.pipeline_sent(false);
    assert_eq!(looping.mode, ReplicationMode::Pipeline);
    looping.pipeline_sent(true);
    assert_eq!(looping.mode, ReplicationMode::Standard);
    // A stop sends what is left, and ends standard mode.
    assert_eq!(looping.wake(Wakeup::Stop(Some(9))), Some(9));
    assert_eq!(looping.mode, ReplicationMode::Ended);
    let mut piped = ReplicationLoop {
        mode: ReplicationMode::Pipeline,
        allow_pipeline: false,
    };
    assert_eq!(piped.wake(Wakeup::Stop(None)), None);
    assert_eq!(piped.mode, ReplicationMode::Standard);
    piped.round_done(true);
    assert_eq!(piped.mode, ReplicationMode::Ended);
}

#[test]
fn only_a_missing_entry_calls_for_the_snapshot() {
    assert!(matches!(step_for(Ok(request(3, 4))), ReplicateStep::Send(r) if r.entries.len() == 2));
    let missing = step_for(Err(RaftError::LogNotFound));
    assert!(matches!(missing, ReplicateStep::SendSnapshot));
    let broken = step_for(Err(RaftError::Other("disk".into())));
    assert!(matches!(broken, ReplicateStep::GiveUp));
}

#[test]
fn the_lease_is_checked_again_before_it_ends() {
    let lease = Duration::from_millis(500);
    for (silent, millis) in [(0, 500), (200, 300), (495, 10), (900, 10)] {
        let next = lease_check_interval(lease, Duration::from_millis(silent));
        assert_eq!(next.as_millis(), millis);
    }
}

/// A machine that takes batches and answers each entry with its index,
/// doubled.
#[derive(Default)]
struct Doubling {
    batches: Vec<Vec<u64>>,
    configurations: Vec<u64>,
}

struct Nothing;

impl FSMSnapshot for Nothing {
    fn persist<N: SnapshotStore>(&self, store: &mut N, sink: N::Sink) -> Result<()> {
        let mut sink = sink;
        store.close(&mut sink)
    }

    fn release(&self) {}
}

impl FSM for Doubling {
    type Response = u64;
    type Snapshot = Nothing;
    type Reader = Vec<u8>;

    fn apply(&mut self, log: &Log) -> Result<u64> {
        Ok(2 * log.index)
    }

    fn snapshot(&mut self) -> Result<Nothing> {
        Ok(Nothing)
    }

    fn restore(&mut self, _snapshot: Vec<u8>) -> Result<()> {
        Ok(())
    }
}

impl BatchingFSM for Doubling {
    fn is_batching() -> bool {
        true
    }

    fn apply_batch(&mut self, logs: &Vec<Log>) -> Vec<Result<u64>> {
        self.batches.push(logs.iter().map(|l| l.index).collect());
        logs.iter().map(|l| Ok(2 * l.index)).collect()
    }
}

impl ConfigurationStore for Doubling {
    fn stores_configurations() -> bool {
        true
    }

    fn store_configuration(&mut self, index: u64, _configuration: Configuration) {
        self.configurations.push(index);
    }
}

#[test]
fn a_batch_answers_each_client_with_its_own_entry() {
    let commit = |index: u64, log_type: LogType, ticket: Option<u64>| CommitTuple {
        log: entry(index, log_type),
        ticket,
    };
    let batch = vec![
        commit(4, LogType::Command, Some(40)),
        commit(5, LogType::Configuration, Some(50)),
        commit(6, LogType::Command, None),
        commit(7, LogType::Command, Some(70)),
    ];
    let decoded = vec![None, Some(membership()), None, None];
    let mut fsm = Doubling::default();
    let mut runner = FsmRunner::new();
    let answers = runner.apply_commit(&mut fsm, &batch, &decoded);
    let told: Vec<(u64, u64, Option<u64>)> = answers
        .into_iter()
        .map(|a| {
            (
                a.ticket,
                a.outcome.index,
                a.outcome.response.map(|r| r.unwrap()),
            )
        })
        .collect();
    assert_eq!(
        told,
        vec![(40, 4, Some(8)), (50, 5, Some(10)), (70, 7, Some(14))]
    );
    assert_eq!(fsm.batches, vec![vec![4, 5, 6, 7]]);
    assert!(fsm.configurations.is_empty());
    assert_eq!((runner.last_index, runner.last_term), (7, 4));
}
