//! Stores that fail when they are told to: what each failure comes to.

use raft::api::{bootstrap_cluster, has_existing_state, new_raft, Raft, StartError};
use raft::append::{AppendOutcome, EntriesOutcome};
use raft::apply::LogFuture;
use raft::config::Config;
use raft::configuration::{Configuration, Server, ServerSuffrage};
use raft::election::Campaigning;
use raft::error::{RaftError, Result};
use raft::fsm::{FSMSnapshot, FsmRunner, FSM};
use raft::inmem_snapshot::InmemSnapshotStore;
use raft::inmem_store::InmemStore;
use raft::install::{spill_snapshot, Spill};
use raft::leader::Dispatch;
use raft::log::{Log, LogStore, LogType};
use raft::raft::Fatal;
use raft::snapshot::{
    snapshot_not_started, SnapshotMeta, SnapshotPlan, SnapshotSink, SnapshotStore,
};
use raft::stable::StableStore;
use raft::state::RaftState;
use raft::time::Instant;
use raft::transport::{AppendEntriesRequest, RPCHeader, RequestVoteRequest};
use raft::vote::VoteOutcome;

/// A store of which single operations fail.
#[derive(Default)]
struct Flaky {
    inner: InmemStore,
    broken: Vec<&'static str>,
}

impl Flaky {
    fn test(&self, operation: &'static str) -> Result<()> {
        if self.broken.contains(&operation) {
            return Err(RaftError::Other(format!("{} is broken", operation)));
        }
        Ok(())
    }

    fn breaking(operation: &'static str) -> Self {
        Flaky {
            inner: InmemStore::new(),
            broken: vec![operation],
        }
    }
}

impl LogStore for Flaky {
    fn first_index(&self) -> Result<u64> {
        self.test("first_index")?;
        self.inner.first_index()
    }

    fn last_index(&self) -> Result<u64> {
        self.test("last_index")?;
        self.inner.last_index()
    }

    fn get_log(&self, index: u64) -> Result<Log> {
        self.test("get_log")?;
        self.inner.get_log(index)
    }

    fn store_log(&mut self, log: &Log) -> Result<()> {
        self.test("store_log")?;
        self.inner.store_log(log)
    }

    fn delete_range(&mut self, min: u64, max: u64) -> Result<()> {
        self.test("delete_range")?;
        self.inner.delete_range(min, max)
    }
}

impl StableStore for Flaky {
    fn set(&mut self, key: &[u8], val: &[u8]) -> Result<()> {
        self.test("set")?;
        self.inner.set(key, val)
    }

    fn get(&self, key: &[u8]) -> Result<Option<Vec<u8>>> {
        self.test("get")?;
        self.inner.get(key)
    }

    fn set_u64(&mut self, key: &[u8], val: u64) -> Result<()> {
        self.test("set_u64")?;
        self.inner.set_u64(key, val)
    }

    fn get_u64(&self, key: &[u8]) -> Result<Option<u64>> {
        self.test("get_u64")?;
        self.inner.get_u64(key)
    }
}

/// A machine that may refuse to be snapshotted or restored.
#[derive(Default)]
struct Machine {
    stubborn: bool,
    restored: usize,
}

struct Nothing;

impl FSMSnapshot for Nothing {
    fn persist<N: SnapshotStore>(&self, store: &mut N, sink: N::Sink) -> Result<()> {
        let mut sink = sink;
        store.close(&mut sink)
    }

    fn release(&self) {}
}

impl FSM for Machine {
    type Response = u64;
    type Snapshot = Nothing;
    type Reader = Vec<u8>;

    fn apply(&mut self, log: &Log) -> Result<u64> {
        Ok(log.index)
    }

    fn snapshot(&mut self) -> Result<Nothing> {
        if self.stubborn {
            return Err(RaftError::Other("stubborn".into()));
        }
        Ok(Nothing)
    }

    fn restore(&mut self, _snapshot: Vec<u8>) -> Result<()> {
        self.restored += 1;
        if self.stubborn {
            return Err(RaftError::Other("stubborn".into()));
        }
        Ok(())
    }
}

/// A snapshot store that notes down what is asked of it.
#[derive(Default)]
struct Noting {
    calls: Vec<&'static str>,
    broken: &'static str,
}

struct NotingSink;

impl SnapshotSink for NotingSink {
    fn id(&self) -> String {
        "noted".into()
    }
}

impl Noting {
    fn note(&mut self, call: &'static str) -> Result<()> {
        self.calls.push(call);
        if self.broken == call {
            return Err(RaftError::Other(format!("{} is broken", call)));
        }
        Ok(())
    }
}

impl SnapshotStore for Noting {
    type Sink = NotingSink;
    type Reader = Vec<u8>;

    fn create(&mut self, _: u8, _: u64, _: u64, _: &Configuration, _: u64) -> Result<NotingSink> {
        self.note("create")?;
        Ok(NotingSink)
    }

    fn write(&mut self, _sink: &mut NotingSink, buf: &[u8]) -> Result<usize> {
        self.note("write")?;
        Ok(buf.len())
    }

    fn close(&mut self, _sink: &mut NotingSink) -> Result<()> {
        self.note("close")
    }

    fn cancel(&mut self, _sink: &mut NotingSink) -> Result<()> {
        self.note("cancel")
    }

    fn list(&self) -> Result<Vec<SnapshotMeta>> {
        Err(RaftError::Other("list is broken".into()))
    }

    fn open(&self, _id: &str) -> Result<(SnapshotMeta, Vec<u8>)> {
        Err(RaftError::Other("open is broken".into()))
    }
}

const NOW: Instant = Instant { nanos: 50 };

fn config() -> Config {
    Config {
        local_id: "a".into(),
        ..Default::default()
    }
}

fn members() -> Configuration {
    Configuration {
        servers: ["a", "b", "c"]
            .iter()
            .map(|id| Server {
                suffrage: ServerSuffrage::Voter,
                id: id.to_string(),
                address: format!("{}-addr", id),
            })
            .collect(),
    }
}

fn begin(
    conf: Config,
    logs: &Flaky,
    stable: &mut Flaky,
    snaps: &InmemSnapshotStore,
    machine: &mut Machine,
) -> std::result::Result<Raft, StartError> {
    new_raft(
        conf,
        "a-addr".into(),
        machine,
        logs,
        stable,
        snaps,
        &|_: &Vec<u8>| Some(members()),
    )
}

/// A node that knows its cluster.
fn node(logs: &mut Flaky, stable: &mut Flaky) -> Raft {
    let snaps = InmemSnapshotStore::new();
    bootstrap_cluster(
        &config(),
        logs,
        stable,
        &snaps,
        &members(),
        Ok(vec![1]),
    )
    .unwrap();
    begin(config(), logs, stable, &snaps, &mut Machine::default()).unwrap()
}

fn header(id: &str) -> RPCHeader {
    RPCHeader {
        protocol_version: 3,
        id: id.into(),
        addr: format!("{}-addr", id),
    }
}

fn entry(index: u64, term: u64) -> Log {
    Log {
        index,
        term,
        log_type: LogType::Command,
        data: vec![index as u8],
        extensions: Vec::new(),
        appended_at: None,
    }
}

fn append(term: u64, previous: (u64, u64), entries: Vec<Log>) -> AppendEntriesRequest {
    AppendEntriesRequest {
        header: header("b"),
        term,
        prev_log_entry: previous.0,
        prev_log_term: previous.1,
        entries,
        leader_commit_index: 0,
    }
}

fn failed(r: std::result::Result<Raft, StartError>) -> String {
    match r {
        Err(StartError::Failed(e)) => e.message(),
        other => panic!("started as {:?}", other),
    }
}

#[test]
fn a_vote_that_is_not_recorded_is_not_given() {
    for operation in ["set", "set_u64"] {
        let (mut logs, mut stable) = (Flaky::default(), Flaky::default());
        let mut raft = node(&mut logs, &mut stable);
        raft.core.set_current_term(&mut stable, 5).unwrap();
        let request = RequestVoteRequest {
            header: header("b"),
            term: 5,
            last_log_index: 9,
            last_log_term: 4,
            leadership_transfer: false,
        };
        stable.broken = vec![operation];
        let answer = raft
            .core
            .request_vote(&mut stable, request.clone(), NOW)
            .unwrap();
        assert_eq!(answer.outcome, VoteOutcome::NotRecorded);
        assert!(!answer.response.granted);
        stable.broken.clear();
        let answer = raft.core.request_vote(&mut stable, request, NOW).unwrap();
        assert!(answer.response.granted);
    }
}

#[test]
fn a_term_that_is_not_saved_is_fatal() {
    let (mut logs, mut stable) = (Flaky::default(), Flaky::default());
    let mut raft = node(&mut logs, &mut stable);
    stable.broken = vec!["set_u64"];
    let request = append(7, (0, 0), Vec::new());
    let f = raft
        .core
        .append_entries(&mut logs, &mut stable, request, &Vec::new(), NOW)
        .unwrap_err();
    assert!(matches!(f, Fatal::TermNotSaved(_)));
    assert_eq!(
        f.message(),
        "failed to save current term: set_u64 is broken"
    );
    assert_eq!(raft.current_term(), 1);
    // A pre-vote changes no term, so nothing can fail.
    let (election, first) = raft.core.start_candidacy(&mut stable).unwrap();
    assert!(election.pre_vote);
    assert!(matches!(first, Campaigning::PreVote(p) if p.own_votes == 1));
    let fatal = raft.core.elect_self(&mut stable).unwrap_err();
    assert!(matches!(fatal, Fatal::TermNotSaved(_)));
}

#[test]
fn a_candidate_whose_vote_is_not_recorded_has_none() {
    let (mut logs, mut stable) = (Flaky::default(), Flaky::default());
    let mut raft = node(&mut logs, &mut stable);
    stable.broken = vec!["set"];
    let campaign = raft.core.elect_self(&mut stable).unwrap();
    assert_eq!(campaign.own_votes, 0);
    stable.broken.clear();
    assert_eq!(raft.core.elect_self(&mut stable).unwrap().own_votes, 1);
}

#[test]
fn entries_that_are_not_stored_are_refused() {
    let (mut logs, mut stable) = (Flaky::default(), Flaky::default());
    let mut raft = node(&mut logs, &mut stable);
    let none = vec![None, None];
    let send = || append(1, (1, 1), vec![entry(2, 1), entry(3, 1)]);
    logs.broken = vec!["store_log"];
    let done = raft
        .core
        .append_entries(&mut logs, &mut stable, send(), &none, NOW)
        .unwrap();
    let outcome = AppendOutcome::Refused(EntriesOutcome::NotStored(0));
    assert_eq!(done.outcome, outcome);
    assert!(!done.response.success);
    logs.broken.clear();
    let done = raft
        .core
        .append_entries(&mut logs, &mut stable, send(), &none, NOW)
        .unwrap();
    assert_eq!(done.outcome, AppendOutcome::Appended(0));
    // A conflict that cannot be removed.
    logs.broken = vec!["delete_range"];
    let clash = append(2, (1, 1), vec![entry(2, 1), entry(3, 2)]);
    let done = raft
        .core
        .append_entries(&mut logs, &mut stable, clash, &none, NOW)
        .unwrap();
    let outcome = AppendOutcome::Refused(EntriesOutcome::NotCleared(1));
    assert_eq!(done.outcome, outcome);
    assert_eq!(logs.get_log(3).unwrap().term, 1);
}

#[test]
fn a_leader_that_cannot_write_steps_down() {
    let (mut logs, mut stable) = (Flaky::default(), Flaky::default());
    let mut raft = node(&mut logs, &mut stable);
    raft.core.set_state(RaftState::Leader);
    let mut ls = raft.core.begin_leadership();
    logs.broken = vec!["store_log"];
    let future = LogFuture {
        log: entry(0, 0),
        ticket: Some(7),
    };
    match raft
        .core
        .dispatch_logs(&mut ls, &mut logs, vec![future], NOW)
    {
        Dispatch::Failed { failed, .. } => {
            assert_eq!(failed.len(), 1);
            assert_eq!(failed[0].ticket, Some(7));
            assert!(matches!(failed[0].error, RaftError::Other(_)));
            assert_eq!(failed[0].error.message(), "store_log is broken");
        }
        other => panic!("written as {:?}", other),
    }
    assert_eq!(raft.state(), RaftState::Follower);
}

#[test]
fn compaction_says_why_it_failed() {
    let (mut logs, mut stable) = (Flaky::default(), Flaky::default());
    let mut raft = node(&mut logs, &mut stable);
    raft.core.conf.trailing_logs = 0;
    logs.broken = vec!["first_index"];
    let err = raft.core.compact_logs(&mut logs, 1).unwrap_err();
    assert_eq!(
        err.message(),
        "failed to get first log index: first_index is broken"
    );
    logs.broken = vec!["delete_range"];
    let err = raft.core.compact_logs(&mut logs, 1).unwrap_err();
    assert_eq!(
        err.message(),
        "log compaction failed: delete_range is broken"
    );
    assert!(raft.core.compact_logs(&mut logs, 0).is_ok());
}

#[test]
fn a_start_names_the_read_that_failed() {
    let snaps = InmemSnapshotStore::new();
    let empty = Flaky::default;
    let mut m = Machine::default();
    let mut broken = Flaky::breaking("get_u64");
    assert_eq!(
        failed(begin(config(), &empty(), &mut broken, &snaps, &mut m)),
        "failed to load current term: get_u64 is broken"
    );
    let broken = Flaky::breaking("last_index");
    assert_eq!(
        failed(begin(config(), &broken, &mut empty(), &snaps, &mut m)),
        "failed to find last log: last_index is broken"
    );
    let mut broken = Flaky::breaking("get_log");
    broken.inner.store_log(&entry(4, 2)).unwrap();
    assert_eq!(
        failed(begin(config(), &broken, &mut empty(), &snaps, &mut m)),
        "failed to get last log at index 4: get_log is broken"
    );
    let mut broken = Flaky::breaking("set_u64");
    assert!(matches!(
        begin(config(), &empty(), &mut broken, &snaps, &mut m),
        Err(StartError::Fatal(Fatal::TermNotSaved(_)))
    ));
    assert!(begin(config(), &empty(), &mut empty(), &snaps, &mut m).is_ok());
}

#[test]
fn a_start_needs_one_snapshot_that_can_be_restored() {
    let mut snaps = InmemSnapshotStore::new();
    let mut sink = snaps.create(1, 10, 3, &Configuration::default(), 0).unwrap();
    snaps.close(&mut sink).unwrap();
    let (logs, mut stable) = (Flaky::default(), Flaky::default());
    let mut stubborn = Machine {
        stubborn: true,
        restored: 0,
    };
    assert_eq!(
        failed(begin(config(), &logs, &mut stable, &snaps, &mut stubborn)),
        "failed to load any existing snapshots"
    );
    assert_eq!(stubborn.restored, 1);
    // Where restoring is switched off, the machine is not asked.
    let conf = Config {
        no_snapshot_restore_on_start: true,
        ..config()
    };
    let raft = begin(conf, &logs, &mut stable, &snaps, &mut stubborn).unwrap();
    assert_eq!(stubborn.restored, 1);
    assert_eq!((raft.applied_index(), raft.last_index()), (10, 10));
    let mut machine = Machine::default();
    let raft = begin(config(), &logs, &mut stable, &snaps, &mut machine).unwrap();
    assert_eq!((raft.applied_index(), machine.restored), (10, 1));
}

#[test]
fn bootstrapping_names_the_step_that_failed() {
    let snaps = InmemSnapshotStore::new();
    let boot = |logs: &mut Flaky, stable: &mut Flaky, encoded: Result<Vec<u8>>| {
        bootstrap_cluster(&config(), logs, stable, &snaps, &members(), encoded)
    };
    let whole = Flaky::default;
    let text = |r: Result<()>| r.unwrap_err().message();
    assert_eq!(
        text(boot(&mut whole(), &mut Flaky::breaking("get_u64"), Ok(vec![1]))),
        "failed to read current term: get_u64 is broken"
    );
    assert_eq!(
        text(boot(&mut Flaky::breaking("last_index"), &mut whole(), Ok(vec![1]))),
        "failed to get last log index: last_index is broken"
    );
    assert_eq!(
        text(boot(&mut whole(), &mut Flaky::breaking("set_u64"), Ok(vec![1]))),
        "failed to save current term: set_u64 is broken"
    );
    assert_eq!(
        text(boot(&mut Flaky::breaking("store_log"), &mut whole(), Ok(vec![1]))),
        "failed to append configuration entry to log: store_log is broken"
    );
    let no = Err(RaftError::Encode("no".into()));
    assert_eq!(text(boot(&mut whole(), &mut whole(), no)), "encoding error: no");
    assert_eq!(
        has_existing_state(&whole(), &whole(), &Noting::default())
            .unwrap_err()
            .message(),
        "failed to list snapshots: list is broken"
    );
    let (mut logs, mut stable) = (whole(), whole());
    boot(&mut logs, &mut stable, Ok(vec![1])).unwrap();
    assert_eq!(stable.get_u64(b"CurrentTerm").unwrap(), Some(1));
    let first = logs.get_log(1).unwrap();
    assert_eq!((first.term, first.log_type), (1, LogType::Configuration));
    // There is state now, so the list of snapshots is not asked for.
    assert!(has_existing_state(&logs, &stable, &Noting::default()).unwrap());
    assert!(matches!(
        boot(&mut logs, &mut stable, Ok(vec![1])),
        Err(RaftError::CantBootstrap)
    ));
    // The refused attempt wrote nothing, and is refused again.
    assert_eq!(logs.last_index().unwrap(), 1);
    assert_eq!(stable.get_u64(b"CurrentTerm").unwrap(), Some(1));
    assert!(matches!(
        boot(&mut logs, &mut stable, Ok(vec![2])),
        Err(RaftError::CantBootstrap)
    ));
    // Only a term that cannot be read is another matter.
    stable.broken = vec!["get_u64"];
    assert_eq!(
        text(boot(&mut logs, &mut stable, Ok(vec![1]))),
        "failed to read current term: get_u64 is broken"
    );
}

#[test]
fn a_snapshot_that_is_cut_short_is_cancelled_and_not_closed() {
    let plan = SnapshotPlan {
        version: 1,
        index: 4,
        term: 2,
        configuration: members(),
        configuration_index: 1,
    };
    let spill = |broken: &'static str, size: u64| {
        let mut store = Noting {
            calls: Vec::new(),
            broken,
        };
        let spill = spill_snapshot(&mut store, &plan, b"data", size);
        (spill, store.calls)
    };
    let (s, calls) = spill("", 9);
    assert!(matches!(s, Spill::WrongSize(4)));
    assert_eq!(calls, vec!["create", "write", "cancel"]);
    let (s, calls) = spill("write", 4);
    assert!(matches!(s, Spill::NotCopied(e) if e.message() == "write is broken"));
    assert_eq!(calls, vec!["create", "write", "cancel"]);
    let (s, calls) = spill("create", 4);
    assert!(matches!(s, Spill::NotCreated(_)));
    assert_eq!(calls, vec!["create"]);
    let (s, calls) = spill("close", 4);
    assert!(matches!(s, Spill::NotClosed(_)));
    assert_eq!(calls, vec!["create", "write", "close"]);
    let (s, _) = spill("", 4);
    assert!(matches!(s, Spill::Written(id) if id == "noted"));
}

#[test]
fn a_machine_may_refuse_a_snapshot() {
    let mut runner = FsmRunner::new();
    let mut stubborn = Machine {
        stubborn: true,
        restored: 0,
    };
    let nothing = runner.snapshot(&mut Machine::default()).err().unwrap();
    assert!(matches!(nothing, RaftError::NothingNewToSnapshot));
    assert!(matches!(
        snapshot_not_started(nothing),
        RaftError::NothingNewToSnapshot
    ));
    runner.last_index = 6;
    runner.last_term = 2;
    let refused = runner.snapshot(&mut stubborn).err().unwrap();
    assert_eq!(
        snapshot_not_started(refused).message(),
        "failed to start snapshot: stubborn"
    );
    let (started, _) = runner.snapshot(&mut Machine::default()).ok().unwrap();
    assert_eq!((started.index, started.term), (6, 2));
}
