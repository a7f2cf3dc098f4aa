use raft::error::{RaftError, Result};
use raft::future::{settled, ApplyOutcome, ErrorFuture, FutureResponder, RaftFuture, VerifyState};

type Answer = Result<ApplyOutcome<u64>>;

#[test]
fn defer_future_success() {
    let mut responder: FutureResponder<Answer> = FutureResponder::new();
    responder.respond(Ok(ApplyOutcome {
        index: 1,
        response: None,
    }));
    let outcome = settled(responder.take()).unwrap();
    assert_eq!(outcome.index, 1);
    assert!(outcome.response.is_none());
}

#[test]
fn defer_future_error() {
    let mut responder: FutureResponder<Answer> = FutureResponder::new();
    responder.respond(Err(RaftError::LeadershipLost));
    let err = settled(responder.take()).unwrap_err();
    assert!(matches!(err, RaftError::LeadershipLost));
}

#[test]
fn respond_only_happens_once() {
    let mut responder: FutureResponder<Answer> = FutureResponder::new();
    responder.respond(Err(RaftError::NotLeader));
    responder.respond(Ok(ApplyOutcome {
        index: 3,
        response: None,
    }));
    let err = settled(responder.take()).unwrap_err();
    assert!(matches!(err, RaftError::NotLeader));
    // Once taken, the answer is gone, and none follows.
    responder.respond(Ok(ApplyOutcome {
        index: 3,
        response: None,
    }));
    assert!(responder.take().is_none());
}

#[test]
fn dropped_responder_yields_shutdown() {
    let mut responder: FutureResponder<Answer> = FutureResponder::new();
    let err = settled(responder.take()).unwrap_err();
    assert!(matches!(err, RaftError::RaftShutdown));
}

#[test]
fn verify_quorum_success() {
    let mut state = VerifyState::new();
    state.start(3);

    assert!(!state.vote(true), "not decided before quorum");
    assert!(state.vote(true), "decided at quorum");
    assert!(state.votes() >= state.quorum_size());

    // Further votes are ignored once decided.
    assert!(!state.vote(false));
}

#[test]
fn verify_negative_vote_decides_immediately() {
    let mut state = VerifyState::new();
    state.start(3);

    assert!(state.vote(false), "decided on negative vote");
    assert!(state.votes() < state.quorum_size());
}

#[test]
fn error_future_reports_static_error() {
    let future = ErrorFuture::new(RaftError::NotLeader);
    assert_eq!(future.index(), 0);
    assert!(future.response::<u64>().is_none());
    let err = future.error().unwrap_err();
    assert!(matches!(err, RaftError::NotLeader));
}
