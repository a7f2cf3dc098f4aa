//! The state of a raft peer.

use crate::time::Instant;
use vstd::prelude::*;

verus! {

/// The state of a raft peer.
#[derive(Debug, Clone, Copy, PartialEq, Eq, Structural)]
pub enum RaftState {
    Follower,
    Candidate,
    Leader,
    Shutdown,
}

/// The state that a number stands for; an unknown number is a follower.
pub open spec fn state_of_code(v: u8) -> RaftState {
    if v == 1 {
        RaftState::Candidate
    } else if v == 2 {
        RaftState::Leader
    } else if v == 3 {
        RaftState::Shutdown
    } else {
        RaftState::Follower
    }
}

/// The number that stands for a state.
pub open spec fn code_of_state(s: RaftState) -> u8 {
    match s {
        RaftState::Follower => 0,
        RaftState::Candidate => 1,
        RaftState::Leader => 2,
        RaftState::Shutdown => 3,
    }
}

/// The name of a state.
pub open spec fn state_name(s: RaftState) -> Seq<char> {
    match s {
        RaftState::Follower => "Follower"@,
        RaftState::Candidate => "Candidate"@,
        RaftState::Leader => "Leader"@,
        RaftState::Shutdown => "Shutdown"@,
    }
}

impl RaftState {
    /// The number that stands for the state.
    pub fn code(&self) -> (r: u8)
        ensures
            r == code_of_state(*self),
    {
        match self {
            RaftState::Follower => 0,
            RaftState::Candidate => 1,
            RaftState::Leader => 2,
            RaftState::Shutdown => 3,
        }
    }

    /// The name of the state.
    pub fn name(&self) -> (r: String)
        ensures
            r@ == state_name(*self),
    {
        match self {
            RaftState::Follower => "Follower".to_owned(),
            RaftState::Candidate => "Candidate".to_owned(),
            RaftState::Leader => "Leader".to_owned(),
            RaftState::Shutdown => "Shutdown".to_owned(),
        }
    }
}

impl From<u8> for RaftState {
    fn from(v: u8) -> (r: Self) {
        match v {
            1 => RaftState::Candidate,
            2 => RaftState::Leader,
            3 => RaftState::Shutdown,
            _ => RaftState::Follower,
        }
    }
}

impl vstd::std_specs::convert::FromSpecImpl<u8> for RaftState {
    open spec fn obeys_from_spec() -> bool {
        true
    }

    open spec fn from_spec(v: u8) -> RaftState {
        state_of_code(v)
    }
}

/// A state is recovered from the number that stands for it.
pub proof fn law_state_code_round_trip(s: RaftState)
    ensures
        state_of_code(code_of_state(s)) == s,
{
}

/// The indexes, term and role of a raft peer.
#[derive(Debug, Clone, Copy)]
pub struct RaftSharedState {
    /// The current term, persisted to the stable store before any update.
    pub current_term: u64,
    /// Highest log entry known to be committed.
    pub commit_index: u64,
    /// Highest log entry applied to the FSM.
    pub last_applied: u64,
    /// Index and term of the latest snapshot.
    pub last_snapshot: (u64, u64),
    /// Index and term of the latest log entry written to the store (not the
    /// snapshot).
    pub last_log: (u64, u64),
    /// Current peer state.
    pub state: RaftState,
    /// Last time we heard from the leader (or won an election).
    pub last_contact: Option<Instant>,
}

impl RaftSharedState {
    /// The index of the last entry, in the log or covered by the snapshot.
    pub open spec fn spec_last_index(&self) -> u64 {
        if self.last_log.0 >= self.last_snapshot.0 {
            self.last_log.0
        } else {
            self.last_snapshot.0
        }
    }

    /// The index and term of the last entry, from the log or the snapshot.
    pub open spec fn spec_last_entry(&self) -> (u64, u64) {
        if self.last_log.0 >= self.last_snapshot.0 {
            self.last_log
        } else {
            self.last_snapshot
        }
    }
}

/// A peer that has seen nothing yet.
pub open spec fn fresh_state() -> RaftSharedState {
    RaftSharedState {
        current_term: 0,
        commit_index: 0,
        last_applied: 0,
        last_snapshot: (0, 0),
        last_log: (0, 0),
        state: RaftState::Follower,
        last_contact: None,
    }
}

impl Default for RaftSharedState {
    fn default() -> (r: Self)
        ensures
            r == fresh_state(),
    {
        RaftSharedState::new()
    }
}

impl RaftSharedState {
    /// A peer that has seen nothing yet.
    pub fn new() -> (r: Self)
        ensures
            r == fresh_state(),
    {
        RaftSharedState {
            current_term: 0,
            commit_index: 0,
            last_applied: 0,
            last_snapshot: (0, 0),
            last_log: (0, 0),
            state: RaftState::Follower,
            last_contact: None,
        }
    }

    /// The current role.
    pub fn state(&self) -> (r: RaftState)
        ensures
            r == self.state,
    {
        self.state
    }

    /// Sets the current role.
    pub fn set_state(&mut self, s: RaftState)
        ensures
            *final(self) == (RaftSharedState { state: s, ..*old(self) }),
    {
        self.state = s;
    }

    /// The current term.
    pub fn current_term(&self) -> (r: u64)
        ensures
            r == self.current_term,
    {
        self.current_term
    }

    /// Sets the current term.
    pub fn set_current_term(&mut self, term: u64)
        ensures
            *final(self) == (RaftSharedState { current_term: term, ..*old(self) }),
    {
        self.current_term = term;
    }

    /// The highest index known to be committed.
    pub fn commit_index(&self) -> (r: u64)
        ensures
            r == self.commit_index,
    {
        self.commit_index
    }

    /// Sets the highest index known to be committed.
    pub fn set_commit_index(&mut self, idx: u64)
        ensures
            *final(self) == (RaftSharedState { commit_index: idx, ..*old(self) }),
    {
        self.commit_index = idx;
    }

    /// The highest index applied to the FSM.
    pub fn last_applied(&self) -> (r: u64)
        ensures
            r == self.last_applied,
    {
        self.last_applied
    }

    /// Sets the highest index applied to the FSM.
    pub fn set_last_applied(&mut self, idx: u64)
        ensures
            *final(self) == (RaftSharedState { last_applied: idx, ..*old(self) }),
    {
        self.last_applied = idx;
    }

    /// The index of the latest snapshot.
    pub fn last_snapshot_index(&self) -> (r: u64)
        ensures
            r == self.last_snapshot.0,
    {
        self.last_snapshot.0
    }

    /// The term of the latest snapshot.
    pub fn last_snapshot_term(&self) -> (r: u64)
        ensures
            r == self.last_snapshot.1,
    {
        self.last_snapshot.1
    }

    /// Sets the index and term of the latest snapshot as a pair.
    pub fn set_last_snapshot(&mut self, index: u64, term: u64)
        ensures
            *final(self) == (RaftSharedState { last_snapshot: (index, term), ..*old(self) }),
    {
        self.last_snapshot = (index, term);
    }

    /// The index and term of the latest snapshot as a pair.
    pub fn last_snapshot(&self) -> (r: (u64, u64))
        ensures
            r == self.last_snapshot,
    {
        self.last_snapshot
    }

    /// The index of the latest log entry.
    pub fn last_log_index(&self) -> (r: u64)
        ensures
            r == self.last_log.0,
    {
        self.last_log.0
    }

    /// The term of the latest log entry.
    pub fn last_log_term(&self) -> (r: u64)
        ensures
            r == self.last_log.1,
    {
        self.last_log.1
    }

    /// Sets the index and term of the latest log entry as a pair.
    pub fn set_last_log(&mut self, index: u64, term: u64)
        ensures
            *final(self) == (RaftSharedState { last_log: (index, term), ..*old(self) }),
    {
        self.last_log = (index, term);
    }

    /// The index and term of the latest log entry as a pair.
    pub fn last_log(&self) -> (r: (u64, u64))
        ensures
            r == self.last_log,
    {
        self.last_log
    }

    /// Returns the index of the last entry, considering both the log store
    /// and the latest snapshot.
    pub fn last_index(&self) -> (r: u64)
        ensures
            r == self.spec_last_index(),
    {
        if self.last_log.0 >= self.last_snapshot.0 {
            self.last_log.0
        } else {
            self.last_snapshot.0
        }
    }

    /// Returns the index and term of the last entry in stable storage, either
    /// from the last log or the last snapshot.
    pub fn last_entry(&self) -> (r: (u64, u64))
        ensures
            r == self.spec_last_entry(),
    {
        if self.last_log.0 >= self.last_snapshot.0 {
            self.last_log
        } else {
            self.last_snapshot
        }
    }

    /// Sets the last time we heard from the leader.
    pub fn set_last_contact(&mut self, when: Instant)
        ensures
            *final(self) == (RaftSharedState { last_contact: Some(when), ..*old(self) }),
    {
        self.last_contact = Some(when);
    }

    /// The last time we heard from the leader.
    pub fn last_contact_time(&self) -> (r: Option<Instant>)
        ensures
            r == self.last_contact,
    {
        self.last_contact
    }
}

} // verus!
