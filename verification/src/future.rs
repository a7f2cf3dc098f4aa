//! What clients wait for: answers that are given at most once, and the
//! verification that a leader still leads.

use crate::error::{RaftError, Result};
use vstd::prelude::*;

verus! {

/// Common behavior of all futures: the error status of the operation.
pub trait RaftFuture: Sized {
    /// Whether the operation will have succeeded.
    closed spec fn succeeds(&self) -> bool {
        arbitrary()
    }

    /// Consumes the future and returns its error status.
    fn error(self) -> (r: Result<()>)
        ensures
            r is Ok <==> self.succeeds(),
    ;
}

/// An answer that is given at most once.
#[derive(Debug)]
pub struct FutureResponder<T> {
    answer: Option<T>,
    responded: bool,
}

impl<T> FutureResponder<T> {
    /// The answer that waits to be taken.
    pub closed spec fn pending(&self) -> Option<T> {
        self.answer
    }

    /// Whether an answer was given.
    pub closed spec fn has_responded(&self) -> bool {
        self.responded
    }

    /// No answer has been given.
    pub fn new() -> (r: Self)
        ensures
            r.pending() is None,
            !r.has_responded(),
    {
        FutureResponder { answer: None, responded: false }
    }

    /// Gives the answer. Calls beyond the first are silently ignored.
    pub fn respond(&mut self, value: T)
        ensures
            final(self).has_responded(),
            old(self).has_responded() ==> final(self).pending() == old(self).pending(),
            !old(self).has_responded() ==> final(self).pending() == Some(value),
    {
        if !self.responded {
            self.responded = true;
            self.answer = Some(value);
        }
    }

    /// Takes the answer, if one was given and not yet taken.
    pub fn take(&mut self) -> (r: Option<T>)
        ensures
            r == old(self).pending(),
            final(self).pending() is None,
            final(self).has_responded() == old(self).has_responded(),
    {
        self.answer.take()
    }
}

/// Maps an answer that never came to the shutdown error.
pub fn settled<T>(answer: Option<Result<T>>) -> (r: Result<T>)
    ensures
        match answer {
            Some(a) => r == a,
            None => r matches Err(e) && e is RaftShutdown,
        },
{
    match answer {
        Some(a) => a,
        None => Err(RaftError::RaftShutdown),
    }
}

/// The outcome of a committed log entry: its index and the FSM response.
#[derive(Debug)]
pub struct ApplyOutcome<R> {
    /// Index of the newly applied log entry.
    pub index: u64,
    /// The FSM response for `LogType::Command` entries, if any. An error of
    /// the FSM is reported here, not as an error of the operation.
    pub response: Option<R>,
}

/// A future that has failed already.
#[derive(Debug)]
pub struct ErrorFuture {
    pub err: RaftError,
}

impl ErrorFuture {
    /// A future with this error.
    pub fn new(err: RaftError) -> (r: Self)
        ensures
            r.err == err,
    {
        ErrorFuture { err }
    }

    /// The index of a failed operation.
    pub fn index(&self) -> (r: u64)
        ensures
            r == 0,
    {
        0
    }

    /// A failed operation has no response.
    pub fn response<R>(&self) -> (r: Option<R>)
        ensures
            r is None,
    {
        None
    }
}

impl RaftFuture for ErrorFuture {
    open spec fn succeeds(&self) -> bool {
        false
    }

    fn error(self) -> (r: Result<()>)
        ensures
            r == Result::<()>::Err(self.err),
    {
        Err(self.err)
    }
}

/// State of an in-progress leader verification. Heartbeats vote as their
/// responses arrive; once a quorum votes, or any peer reports a newer leader,
/// the verification is decided.
#[derive(Debug, Clone, Copy, PartialEq, Eq, Structural)]
pub struct VerifyState {
    /// Votes needed; zero until the verification is started.
    pub quorum_size: usize,
    pub votes: usize,
    /// Whether a vote can still decide.
    pub armed: bool,
}

impl VerifyState {
    /// A verification that is not yet started.
    pub fn new() -> (r: Self)
        ensures
            r == (VerifyState { quorum_size: 0, votes: 0, armed: false }),
    {
        VerifyState { quorum_size: 0, votes: 0, armed: false }
    }

    /// Arms the verification and records the leader's own vote.
    pub fn start(&mut self, quorum_size: usize)
        ensures
            *final(self) == (VerifyState { quorum_size, votes: 1, armed: true }),
    {
        self.votes = 1;
        self.quorum_size = quorum_size;
        self.armed = true;
    }

    /// Votes needed.
    pub fn quorum_size(&self) -> (r: usize)
        ensures
            r == self.quorum_size,
    {
        self.quorum_size
    }

    /// Votes counted.
    pub fn votes(&self) -> (r: usize)
        ensures
            r == self.votes,
    {
        self.votes
    }

    /// Records a vote from a peer and tells whether it decides: a quorum of
    /// positive votes, or any negative vote, decides the verification, once.
    pub fn vote(&mut self, leader: bool) -> (decided: bool)
        requires
            old(self).armed ==> old(self).votes < usize::MAX,
        ensures
            decided == verify_decides(*old(self), leader),
            *final(self) == verify_voted(*old(self), leader),
    {
        // Guard against having decided already.
        if !self.armed {
            return false;
        }
        if leader {
            self.votes = self.votes + 1;
            if self.votes >= self.quorum_size {
                self.armed = false;
                return true;
            }
            false
        } else {
            self.armed = false;
            true
        }
    }
}

/// Whether a vote decides a verification.
pub open spec fn verify_decides(v: VerifyState, leader: bool) -> bool {
    v.armed && (!leader || v.votes + 1 >= v.quorum_size)
}

/// The verification after a vote.
pub open spec fn verify_voted(v: VerifyState, leader: bool) -> VerifyState {
    if !v.armed {
        v
    } else {
        VerifyState {
            quorum_size: v.quorum_size,
            votes: if leader {
                (v.votes + 1) as usize
            } else {
                v.votes
            },
            armed: !verify_decides(v, leader),
        }
    }
}

/// A verification is decided at most once: after a vote has decided it, no
/// later vote does, and the votes counted stay as they were.
pub proof fn law_verification_is_decided_once(v: VerifyState, leader: bool, later: bool)
    requires
        verify_decides(v, leader),
    ensures
        !verify_decides(verify_voted(v, leader), later),
        verify_voted(verify_voted(v, leader), later) == verify_voted(v, leader),
{
}

/// A verification that a negative vote decides has fewer votes than it needs,
/// and one that a positive vote decides has as many as it needs: the main
/// loop tells them apart by the count.
pub proof fn law_decision_shows_in_the_count(v: VerifyState, leader: bool)
    requires
        verify_decides(v, leader),
        v.votes < v.quorum_size,
    ensures
        leader <==> verify_voted(v, leader).votes >= v.quorum_size,
{
}

} // verus!
