use raft::api::{enqueue_limit, enqueued, Enqueue};
use raft::error::{io_to_raft, RaftError};
use raft::log::LogType;
use raft::raft::Fatal;
use raft::state::{RaftSharedState, RaftState};
use raft::text::{text_contains, text_ends_with};
use raft::time::{
    backoff, capped_exponential_backoff, jittered_duration, random_duration, Duration, Instant,
};

#[test]
fn every_error_has_its_text() {
    let texts = [
        (RaftError::NotLeader, "node is not the leader"),
        (RaftError::Leader, "node is the leader"),
        (RaftError::NotVoter, "node is not a voter"),
        (
            RaftError::LeadershipLost,
            "leadership lost while committing log",
        ),
        (RaftError::AbortedByRestore, "log restored, local lease lost"),
        (RaftError::RaftShutdown, "raft is already shutdown"),
        (
            RaftError::EnqueueTimeout,
            "failed to enqueue operation, timeout",
        ),
        (RaftError::NothingNewToSnapshot, "nothing new to snapshot"),
        (
            RaftError::UnsupportedProtocol,
            "operation not supported with current protocol version",
        ),
        (
            RaftError::CantBootstrap,
            "cluster cannot be bootstrapped if already started",
        ),
        (
            RaftError::LeadershipTransferInProgress,
            "leadership transfer in progress",
        ),
        (RaftError::LogNotFound, "log not found"),
        (RaftError::PipelineShutdown, "pipeline is closed"),
        (RaftError::TransportShutdown, "transport is closed"),
        (RaftError::Timeout, "timed out waiting for response"),
        (
            RaftError::Configuration("x".into()),
            "configuration error: x",
        ),
        (RaftError::Encode("x".into()), "encoding error: x"),
        (RaftError::Decode("x".into()), "decoding error: x"),
        (RaftError::Snapshot("x".into()), "snapshot error: x"),
        (RaftError::Other("x".into()), "x"),
    ];
    for (e, text) in texts {
        assert_eq!(e.message(), text);
    }
}

#[test]
fn errors_of_the_system_keep_their_text() {
    let gone = std::io::Error::new(std::io::ErrorKind::NotFound, "gone");
    assert_eq!(io_to_raft(gone).message(), "io error: gone");
    let refused = RaftError::TransportConnect {
        address: "here".into(),
        source: std::io::Error::new(std::io::ErrorKind::Other, "refused"),
    };
    assert_eq!(refused.message(), "failed to connect to here: refused");
}

#[test]
fn fatal_failures_say_what_failed() {
    assert_eq!(
        Fatal::TermNotSaved(RaftError::Timeout).message(),
        "failed to save current term: timed out waiting for response"
    );
    assert_eq!(
        Fatal::LogUnread(7, RaftError::LogNotFound).message(),
        "failed to get log 7: log not found"
    );
    assert_eq!(
        Fatal::SnapshotNotRestored(RaftError::Timeout).message(),
        "failed to restore snapshot: timed out waiting for response"
    );
}

#[test]
fn backoff_doubles_up_to_its_limit() {
    let base = Duration::from_millis(10);
    for (round, millis) in [(0, 10), (1, 10), (2, 10), (3, 20), (4, 40), (12, 10240), (50, 10240)] {
        assert_eq!(backoff(base, round, 12).as_millis(), millis);
    }
    let cap = Duration::from_millis(30);
    assert_eq!(capped_exponential_backoff(base, 3, 12, cap).as_millis(), 20);
    assert_eq!(capped_exponential_backoff(base, 4, 12, cap).as_millis(), 30);
    assert_eq!(capped_exponential_backoff(base, 50, 12, cap).as_millis(), 30);
}

#[test]
fn timers_are_randomized_within_bounds() {
    let min = Duration::from_millis(50);
    assert_eq!(jittered_duration(min, 7).as_nanos(), 50_000_007);
    assert_eq!(jittered_duration(min, 50_000_000).as_nanos(), 50_000_000);
    assert!(random_duration(Duration::zero()).is_zero());
    let mut seen = Vec::new();
    for _ in 0..20 {
        let d = random_duration(min).as_nanos();
        assert!(d >= 50_000_000 && d < 100_000_000);
        seen.push(d);
    }
    seen.sort();
    seen.dedup();
    assert!(seen.len() > 1);
}

#[test]
fn spans_are_measured() {
    let a = Instant { nanos: 5 };
    let b = Instant { nanos: 12 };
    assert_eq!(b.since(&a).as_nanos(), 7);
    assert_eq!(a.since(&b).as_nanos(), 0);
    assert_eq!(Duration::from_secs(2).times(3).as_millis(), 6000);
    assert_eq!(Duration::from_millis(7).divided_by(2).as_nanos(), 3_500_000);
}

#[test]
fn states_have_codes_and_names() {
    for s in [
        RaftState::Follower,
        RaftState::Candidate,
        RaftState::Leader,
        RaftState::Shutdown,
    ] {
        assert_eq!(RaftState::from(s.code()), s);
    }
    assert_eq!(RaftState::Follower.name(), "Follower");
    assert_eq!(RaftState::Leader.code(), 2);
    assert_eq!(LogType::Configuration.code(), 4);
}

#[test]
fn the_last_entry_may_lie_in_the_snapshot() {
    let mut s = RaftSharedState::new();
    assert_eq!(s.last_index(), 0);
    s.set_last_log(5, 2);
    s.set_last_snapshot(9, 3);
    assert_eq!(s.last_index(), 9);
    assert_eq!(s.last_entry(), (9, 3));
    s.set_last_log(9, 4);
    assert_eq!(s.last_entry(), (9, 4));
}

#[test]
fn requests_are_enqueued_or_not() {
    assert!(enqueued(Enqueue::Sent).is_ok());
    assert!(matches!(
        enqueued(Enqueue::Closed).unwrap_err(),
        RaftError::RaftShutdown
    ));
    assert!(matches!(
        enqueued(Enqueue::ShutDown).unwrap_err(),
        RaftError::RaftShutdown
    ));
    assert!(matches!(
        enqueued(Enqueue::TimedOut).unwrap_err(),
        RaftError::EnqueueTimeout
    ));
    assert!(enqueue_limit(Duration::zero()).is_none());
    assert_eq!(
        enqueue_limit(Duration::from_millis(3)).unwrap().as_millis(),
        3
    );
}

#[test]
fn texts_are_searched() {
    assert!(text_contains("unexpected command: x", "unexpected command"));
    assert!(!text_contains("unexpected", "unexpected command"));
    assert!(text_contains("abc", ""));
    assert!(text_ends_with("a.tmp", ".tmp"));
    assert!(!text_ends_with("tmp", ".tmp"));
    assert!(!text_ends_with(".tmpx", ".tmp"));
}
