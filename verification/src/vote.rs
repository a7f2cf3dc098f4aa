//! Granting votes and pre-votes, and answering heartbeats.

use crate::configuration::{member_of, nothing_repeats, votes_in, ServerView};
use crate::error::RaftError;
use crate::observer::{ObservationData, ObservationView};
use crate::quorum::{is_majority_of, law_majorities_meet};
use crate::raft::{
    own_header, persist_vote, recorded_candidate, recorded_term, recorded_vote_term, term_answered,
    term_unsaved, vote_unrecorded, with_contact, with_leader, with_observation, with_state,
    with_term, Fatal, NodeView, RaftCore,
};
use crate::stable::{key_bytes, StableStore, LAST_VOTE_CAND_KEY, LAST_VOTE_TERM_KEY};
use crate::state::{RaftSharedState, RaftState};
use crate::text::{lemma_encoding_determines_text, same_bytes, same_text};
use crate::time::Instant;
use crate::transport::{
    AppendEntriesResponse, AppendResponseView, HeaderView, PreVoteRequestView, RPCCommand,
    RequestPreVoteRequest, RequestPreVoteResponse, RequestVoteRequest, RequestVoteResponse,
    VoteRequestView,
};
use vstd::prelude::*;
use vstd::utf8::encode_utf8;

verus! {

/// How a candidate stands with a node before the logs are compared.
#[derive(Debug, Clone, Copy, PartialEq, Eq, Structural)]
pub enum VoteStanding {
    /// The candidate is not in the configuration.
    NotMember,
    /// There is a leader who is not the candidate.
    HasLeader,
    /// The candidate's term is older.
    OldTerm,
    /// The candidate has no vote itself.
    NonVoter,
    /// Nothing speaks against the candidate yet.
    Eligible,
}

/// How the sender of a vote request stands with a node. A node without a
/// configuration takes any candidate, since its cluster is being bootstrapped.
pub open spec fn standing(
    n: NodeView,
    candidate: HeaderView,
    term: u64,
    leadership_transfer: bool,
) -> VoteStanding {
    let latest = n.configurations.latest;
    if latest.len() > 0 && !member_of(latest, candidate.id) {
        VoteStanding::NotMember
    } else if n.leader_addr.len() > 0 && n.leader_addr != candidate.addr && !leadership_transfer {
        VoteStanding::HasLeader
    } else if term < n.shared.current_term {
        VoteStanding::OldTerm
    } else if latest.len() > 0 && !votes_in(latest, candidate.id) {
        VoteStanding::NonVoter
    } else {
        VoteStanding::Eligible
    }
}

/// Whether a candidate's log is at least as recent as the node's own: a later
/// last term wins, and for equal last terms the longer log.
pub open spec fn log_recent_enough(n: NodeView, last_log_term: u64, last_log_index: u64) -> bool {
    let (index, term) = n.shared.spec_last_entry();
    last_log_term > term || (last_log_term == term && last_log_index >= index)
}

/// The node after a vote request was seen.
pub open spec fn saw_request(n: NodeView, req: VoteRequestView) -> NodeView {
    with_observation(n, ObservationView::RequestVote { request: req })
}

/// The node after a vote request whose term is not older: a newer term is
/// adopted.
pub open spec fn adopted_term(n: NodeView, term: u64) -> NodeView {
    if term > n.shared.current_term {
        with_term(with_state(n, RaftState::Follower), term)
    } else {
        n
    }
}

/// What came of a vote request.
#[derive(Debug, Clone, Copy, PartialEq, Eq, Structural)]
pub enum VoteOutcome {
    /// The candidate's standing forbids a vote.
    Refused(VoteStanding),
    /// The recorded vote could not be read.
    RecordUnread,
    /// A vote was given in this term already, to this candidate or not.
    AlreadyVoted(bool),
    /// The candidate's log is behind.
    LogBehind,
    /// The vote could not be recorded.
    NotRecorded,
    /// The vote is recorded and granted.
    Granted,
}

/// The answer to a vote request and how it came about.
#[derive(Debug)]
pub struct VoteAnswer {
    pub response: RequestVoteResponse,
    pub outcome: VoteOutcome,
}

/// Whether the outcome is a vote for the candidate.
pub open spec fn grants(outcome: VoteOutcome) -> bool {
    outcome is Granted || outcome == VoteOutcome::AlreadyVoted(true)
}

/// What a vote request comes to, by outcome: what it says of the request, the
/// node afterwards, and the recorded vote before and after.
pub open spec fn vote_effect(
    n: NodeView,
    vote_term: u64,
    candidate: Option<Seq<u8>>,
    req: VoteRequestView,
    now: Instant,
    outcome: VoteOutcome,
    after: NodeView,
    vote_term_now: u64,
    candidate_now: Option<Seq<u8>>,
) -> bool {
    let seen = saw_request(n, req);
    let s = standing(seen, req.header, req.term, req.leadership_transfer);
    let adopted = adopted_term(seen, req.term);
    let voted = vote_term == req.term && candidate is Some;
    match outcome {
        VoteOutcome::Refused(why) => {
            &&& why == s
            &&& s != VoteStanding::Eligible
            &&& after == if s == VoteStanding::NonVoter {
                adopted
            } else {
                seen
            }
            &&& vote_term_now == vote_term
            &&& candidate_now == candidate
        },
        VoteOutcome::RecordUnread => {
            &&& s == VoteStanding::Eligible
            &&& after == adopted
            &&& vote_term_now == vote_term
            &&& candidate_now == candidate
        },
        VoteOutcome::AlreadyVoted(same) => {
            &&& s == VoteStanding::Eligible
            &&& voted
            &&& same == (candidate == Some(encode_utf8(req.header.addr)))
            &&& after == adopted
            &&& vote_term_now == vote_term
            &&& candidate_now == candidate
        },
        VoteOutcome::LogBehind => {
            &&& s == VoteStanding::Eligible
            &&& !voted
            &&& !log_recent_enough(n, req.last_log_term, req.last_log_index)
            &&& after == adopted
            &&& vote_term_now == vote_term
            &&& candidate_now == candidate
        },
        VoteOutcome::NotRecorded => {
            &&& s == VoteStanding::Eligible
            &&& !voted
            &&& log_recent_enough(n, req.last_log_term, req.last_log_index)
            &&& after == adopted
        },
        VoteOutcome::Granted => {
            &&& s == VoteStanding::Eligible
            &&& !voted
            &&& log_recent_enough(n, req.last_log_term, req.last_log_index)
            &&& after == with_contact(adopted, now)
            &&& vote_term_now == req.term
            &&& candidate_now == Some(encode_utf8(req.header.addr))
        },
    }
}

/// Whether the recorded vote cannot be read, as the store itself says.
pub open spec fn record_unread<S: StableStore>(stable: S) -> bool {
    ||| exists|key: &[u8], e: RaftError|
        key@ == key_bytes(LAST_VOTE_TERM_KEY) && #[trigger] call_ensures(
            S::get_u64,
            (&stable, key),
            Err::<Option<u64>, RaftError>(e),
        )
    ||| exists|key: &[u8], e: RaftError|
        key@ == key_bytes(LAST_VOTE_CAND_KEY) && #[trigger] call_ensures(
            S::get,
            (&stable, key),
            Err::<Option<Vec<u8>>, RaftError>(e),
        )
}

/// Whether a vote that is to be given is not recorded, as the store itself
/// says, once a newer term is on record.
pub open spec fn vote_refused_by_store<S: StableStore>(
    n: NodeView,
    req: VoteRequestView,
    stable: S,
) -> bool {
    exists|s: S, candidate: &[u8], e: RaftError|
        {
            &&& candidate@ == encode_utf8(req.header.addr)
            &&& if req.term > n.shared.current_term {
                &&& term_answered(stable, req.term, true)
                &&& recorded_term(&s) == req.term
                &&& recorded_vote_term(&s) == recorded_vote_term(&stable)
                &&& recorded_candidate(&s) == recorded_candidate(&stable)
            } else {
                s == stable
            }
            &&& #[trigger] vote_unrecorded(s, req.term, candidate, e)
        }
}

/// What a vote request leaves on record besides a vote: a newer term that was
/// taken up. A vote that is to be given fails to be read or recorded only
/// where the store says so; where it was not recorded, nothing is known of
/// the record.
pub open spec fn vote_recorded<S: StableStore>(
    n: NodeView,
    req: VoteRequestView,
    outcome: VoteOutcome,
    after: NodeView,
    stable: S,
    stable_now: S,
) -> bool {
    &&& outcome == VoteOutcome::RecordUnread ==> record_unread(stable_now)
    &&& outcome == VoteOutcome::NotRecorded ==> vote_refused_by_store(n, req, stable)
    &&& outcome != VoteOutcome::NotRecorded ==> recorded_term(&stable_now) == if req.term
        > n.shared.current_term && after.shared.current_term == req.term {
        req.term
    } else {
        recorded_term(&stable)
    }
}

/// Whether a node fails over a vote request: it cannot record a newer term
/// that it is to take up.
pub open spec fn vote_fails<S: StableStore>(
    n: NodeView,
    req: VoteRequestView,
    stable: S,
    after: NodeView,
    f: Fatal,
) -> bool {
    let seen = saw_request(n, req);
    let s = standing(seen, req.header, req.term, req.leadership_transfer);
    &&& term_unsaved(stable, req.term, f)
    &&& req.term > n.shared.current_term
    &&& s == VoteStanding::NonVoter || s == VoteStanding::Eligible
    &&& after == with_state(seen, RaftState::Follower)
}

/// The term that a vote request is answered with.
pub open spec fn vote_answer_term(n: NodeView, req: VoteRequestView, outcome: VoteOutcome) -> u64 {
    match outcome {
        VoteOutcome::Refused(why) => if why == VoteStanding::NonVoter {
            req.term
        } else {
            n.shared.current_term
        },
        _ => req.term,
    }
}

/// Whether a pre-vote is granted.
pub open spec fn pre_vote_granted(n: NodeView, req: PreVoteRequestView) -> bool {
    &&& standing(n, req.header, req.term, false) == VoteStanding::Eligible
    &&& log_recent_enough(n, req.last_log_term, req.last_log_index)
}

/// The term that a pre-vote request is answered with.
pub open spec fn pre_vote_answer_term(n: NodeView, req: PreVoteRequestView) -> u64 {
    let s = standing(n, req.header, req.term, false);
    if s == VoteStanding::NonVoter || s == VoteStanding::Eligible {
        req.term
    } else {
        n.shared.current_term
    }
}

/// The node after a heartbeat of a leader whose term is not older. The role
/// changes silently: the known leader is not cleared and no change of state
/// is observed.
pub open spec fn heard_heartbeat(
    n: NodeView,
    term: u64,
    addr: Seq<char>,
    id: Seq<char>,
    now: Instant,
) -> NodeView {
    let m = if crate::append::steps_down_for(n, term) {
        with_term(
            (NodeView {
                shared: RaftSharedState { state: RaftState::Follower, ..n.shared },
                ..n
            }),
            term,
        )
    } else {
        n
    };
    with_contact(with_leader(m, addr, id), now)
}

/// What came of a command on the heartbeat fast path.
#[derive(Debug)]
pub enum HeartbeatAnswer {
    /// The node is shutting down and answers nothing.
    Dropped,
    /// The command is not an AppendEntries.
    Rejected(RaftError),
    /// The heartbeat is answered.
    Answered(AppendEntriesResponse),
}

impl RaftCore {
    /// How the sender of a vote or pre-vote request stands with this node.
    pub fn vote_standing(&self, id: &str, addr: &str, term: u64, leadership_transfer: bool) -> (r:
        VoteStanding)
        ensures
            r == standing(
                self@,
                (HeaderView { protocol_version: 0, id: id@, addr: addr@ }),
                term,
                leadership_transfer,
            ),
    {
        let latest = &self.configurations.latest;
        assert(latest@.len() == latest.servers@.len());
        if latest.servers.len() > 0 && !latest.contains(id) {
            return VoteStanding::NotMember;
        }
        if !self.leader_addr.as_str().is_empty() && !same_text(self.leader_addr.as_str(), addr)
            && !leadership_transfer {
            return VoteStanding::HasLeader;
        }
        if term < self.shared.current_term() {
            return VoteStanding::OldTerm;
        }
        if latest.servers.len() > 0 && !latest.has_vote(id) {
            return VoteStanding::NonVoter;
        }
        VoteStanding::Eligible
    }

    /// Whether a candidate's log is at least as recent as ours.
    pub fn log_recent(&self, last_log_term: u64, last_log_index: u64) -> (r: bool)
        ensures
            r == log_recent_enough(self@, last_log_term, last_log_index),
    {
        let (index, term): (u64, u64) = self.shared.last_entry();
        last_log_term > term || (last_log_term == term && last_log_index >= index)
    }

    /// Invoked when we get a RequestVote call.
    pub fn request_vote<S: StableStore>(
        &mut self,
        stable: &mut S,
        req: RequestVoteRequest,
        now: Instant,
    ) -> (r: Result<VoteAnswer, Fatal>)
        ensures
            r matches Ok(answer) ==> {
                &&& vote_effect(
                    old(self)@,
                    recorded_vote_term(old(stable)),
                    recorded_candidate(old(stable)),
                    req@,
                    now,
                    answer.outcome,
                    final(self)@,
                    recorded_vote_term(final(stable)),
                    recorded_candidate(final(stable)),
                )
                &&& answer.response.header@ == own_header(old(self)@)
                &&& answer.response.term == vote_answer_term(
                    old(self)@,
                    req@,
                    answer.outcome,
                )
                &&& answer.response.granted == grants(answer.outcome)
                &&& vote_recorded(
                    old(self)@,
                    req@,
                    answer.outcome,
                    final(self)@,
                    *old(stable),
                    *final(stable),
                )
            },
            r matches Err(f) ==> vote_fails(old(self)@, req@, *old(stable), final(self)@, f),
    {
        self.observe(ObservationData::RequestVote(req.clone()));
        let ghost seen = self@;
        let mut resp = RequestVoteResponse {
            header: self.rpc_header(),
            term: self.shared.current_term(),
            granted: false,
        };
        let stands = self.vote_standing(
            req.header.id.as_str(),
            req.header.addr.as_str(),
            req.term,
            req.leadership_transfer,
        );
        match stands {
            VoteStanding::NotMember | VoteStanding::HasLeader | VoteStanding::OldTerm => {
                return Ok(VoteAnswer { response: resp, outcome: VoteOutcome::Refused(stands) });
            },
            _ => {},
        }
        // Increase the term if we see a newer one.
        if req.term > self.shared.current_term() {
            self.set_state(RaftState::Follower);
            match self.set_current_term(stable, req.term) {
                Ok(()) => {},
                Err(f) => {
                    return Err(f);
                },
            }
        }
        resp.term = req.term;
        // A request from a non-voter at a higher term still steps us down
        // above, but is rejected here so the cluster can make progress.
        if stands == VoteStanding::NonVoter {
            return Ok(VoteAnswer { response: resp, outcome: VoteOutcome::Refused(stands) });
        }
        // Check if we have voted yet.
        let term_key = LAST_VOTE_TERM_KEY.as_bytes();
        let last_vote_term: u64 = match stable.get_u64(term_key) {
            Ok(Some(term)) => term,
            Ok(None) => 0,
            Err(e) => {
                assert(call_ensures(
                    S::get_u64,
                    (&*stable, term_key),
                    Err::<Option<u64>, RaftError>(e),
                ));
                return Ok(VoteAnswer { response: resp, outcome: VoteOutcome::RecordUnread });
            },
        };
        let cand_key = LAST_VOTE_CAND_KEY.as_bytes();
        let last_vote_cand = match stable.get(cand_key) {
            Ok(cand) => cand,
            Err(e) => {
                assert(call_ensures(
                    S::get,
                    (&*stable, cand_key),
                    Err::<Option<Vec<u8>>, RaftError>(e),
                ));
                return Ok(VoteAnswer { response: resp, outcome: VoteOutcome::RecordUnread });
            },
        };
        // Check if we've voted in this election before.
        if last_vote_term == req.term {
            match last_vote_cand {
                Some(cand) => {
                    let same = same_bytes(cand.as_slice(), req.header.addr.as_str().as_bytes());
                    resp.granted = same;
                    return Ok(
                        VoteAnswer { response: resp, outcome: VoteOutcome::AlreadyVoted(same) },
                    );
                },
                None => {},
            }
        }
        // Reject if their log is older.
        if !self.log_recent(req.last_log_term, req.last_log_index) {
            return Ok(VoteAnswer { response: resp, outcome: VoteOutcome::LogBehind });
        }
        // Persist a vote for safety.
        let ghost asked = *stable;
        let candidate = req.header.addr.as_str().as_bytes();
        match persist_vote(stable, req.term, candidate) {
            Ok(()) => {},
            Err(e) => {
                assert(vote_unrecorded(asked, req.term, candidate, e));
                return Ok(VoteAnswer { response: resp, outcome: VoteOutcome::NotRecorded });
            },
        }
        resp.granted = true;
        self.shared.set_last_contact(now);
        Ok(VoteAnswer { response: resp, outcome: VoteOutcome::Granted })
    }

    /// Invoked when we get a RequestPreVote call, which changes nothing.
    pub fn request_pre_vote(&self, req: &RequestPreVoteRequest) -> (r: RequestPreVoteResponse)
        ensures
            r.header@ == own_header(self@),
            r.term == pre_vote_answer_term(self@, req@),
            r.granted == pre_vote_granted(self@, req@),
    {
        let mut resp = RequestPreVoteResponse {
            header: self.rpc_header(),
            term: self.shared.current_term(),
            granted: false,
        };
        let stands = self.vote_standing(
            req.header.id.as_str(),
            req.header.addr.as_str(),
            req.term,
            false,
        );
        match stands {
            VoteStanding::NotMember | VoteStanding::HasLeader | VoteStanding::OldTerm => {
                return resp;
            },
            _ => {},
        }
        // A newer term does not change our state for a pre-vote.
        resp.term = req.term;
        if stands == VoteStanding::NonVoter {
            return resp;
        }
        resp.granted = self.log_recent(req.last_log_term, req.last_log_index);
        resp
    }

    /// Special handler for heartbeat requests, fast-pathed by transports
    /// that support it to avoid head-of-line blocking behind disk IO.
    pub fn process_heartbeat<S: StableStore>(
        &mut self,
        stable: &mut S,
        command: RPCCommand,
        now: Instant,
    ) -> (r: Result<HeartbeatAnswer, Fatal>)
        ensures
            old(self)@.shutdown ==> r matches Ok(HeartbeatAnswer::Dropped),
            !old(self)@.shutdown && !(command is AppendEntries) ==> (r matches Ok(
                HeartbeatAnswer::Rejected(RaftError::Other(text)),
            ) && text@ == "unexpected command"@),
            old(self)@.shutdown || !(command is AppendEntries) ==> final(self)@ == old(self)@
                && *final(stable) == *old(stable),
            !old(self)@.shutdown ==> (command matches RPCCommand::AppendEntries(req) ==> match r {
                Ok(HeartbeatAnswer::Answered(resp)) => {
                    let stale = req.term < old(self)@.shared.current_term;
                    &&& resp@ == (AppendResponseView {
                        header: own_header(old(self)@),
                        term: if stale {
                            old(self)@.shared.current_term
                        } else {
                            req.term
                        },
                        last_log: old(self)@.shared.spec_last_index(),
                        success: !stale,
                        no_retry_backoff: false,
                    })
                    &&& final(self)@ == if stale {
                        old(self)@
                    } else {
                        heard_heartbeat(
                            old(self)@,
                            req.term,
                            req.header.addr@,
                            req.header.id@,
                            now,
                        )
                    }
                    &&& recorded_vote_term(final(stable)) == recorded_vote_term(old(stable))
                    &&& recorded_candidate(final(stable)) == recorded_candidate(old(stable))
                    &&& recorded_term(final(stable)) == if !stale && crate::append::steps_down_for(
                        old(self)@,
                        req.term,
                    ) {
                        req.term
                    } else {
                        recorded_term(old(stable))
                    }
                },
                Ok(_) => false,
                Err(f) => term_unsaved(*old(stable), req.term, f) && req.term >= old(
                    self,
                )@.shared.current_term && crate::append::steps_down_for(old(self)@, req.term),
            }),
    {
        if self.shutdown {
            return Ok(HeartbeatAnswer::Dropped);
        }
        let req = match command {
            RPCCommand::AppendEntries(req) => req,
            _ => {
                return Ok(
                    HeartbeatAnswer::Rejected(RaftError::Other("unexpected command".to_owned())),
                );
            },
        };
        let mut resp = AppendEntriesResponse {
            header: self.rpc_header(),
            term: self.shared.current_term(),
            last_log: self.shared.last_index(),
            success: false,
            no_retry_backoff: false,
        };
        // Ignore an older term.
        if req.term < self.shared.current_term() {
            return Ok(HeartbeatAnswer::Answered(resp));
        }
        // Increase the term if we see a newer one, and transition to
        // follower if we ever get an AppendEntries call.
        if req.term > self.shared.current_term() || (self.shared.state() != RaftState::Follower
            && !self.candidate_from_leadership_transfer) {
            self.shared.set_state(RaftState::Follower);
            match self.set_current_term(stable, req.term) {
                Ok(()) => {},
                Err(f) => {
                    return Err(f);
                },
            }
        }
        resp.term = req.term;
        // Save the current leader.
        self.set_leader(req.header.addr, req.header.id);
        resp.success = true;
        self.shared.set_last_contact(now);
        Ok(HeartbeatAnswer::Answered(resp))
    }
}

/// In one term a node gives its vote to one candidate only: of two granted
/// requests, the second of which finds the vote that the first left, both
/// come from the same address.
pub proof fn law_one_vote_per_term(
    n1: NodeView,
    vote_term_0: u64,
    candidate_0: Option<Seq<u8>>,
    first: VoteRequestView,
    now1: Instant,
    outcome1: VoteOutcome,
    after1: NodeView,
    vote_term_1: u64,
    candidate_1: Option<Seq<u8>>,
    n2: NodeView,
    second: VoteRequestView,
    now2: Instant,
    outcome2: VoteOutcome,
    after2: NodeView,
    vote_term_2: u64,
    candidate_2: Option<Seq<u8>>,
)
    requires
        vote_effect(
            n1,
            vote_term_0,
            candidate_0,
            first,
            now1,
            outcome1,
            after1,
            vote_term_1,
            candidate_1,
        ),
        vote_effect(
            n2,
            vote_term_1,
            candidate_1,
            second,
            now2,
            outcome2,
            after2,
            vote_term_2,
            candidate_2,
        ),
        first.term == second.term,
        grants(outcome1),
        grants(outcome2),
    ensures
        first.header.addr == second.header.addr,
{
    lemma_encoding_of_vote(first, second, candidate_1);
}

/// A vote request that was met, with the node and the recorded vote before
/// and after.
pub struct VoteStep {
    pub n: NodeView,
    pub vote_term: u64,
    pub candidate: Option<Seq<u8>>,
    pub req: VoteRequestView,
    pub now: Instant,
    pub outcome: VoteOutcome,
    pub after: NodeView,
    pub vote_term_now: u64,
    pub candidate_now: Option<Seq<u8>>,
}

/// Whether the step is one that a vote request can come to.
pub open spec fn vote_step(s: VoteStep) -> bool {
    vote_effect(
        s.n,
        s.vote_term,
        s.candidate,
        s.req,
        s.now,
        s.outcome,
        s.after,
        s.vote_term_now,
        s.candidate_now,
    )
}

/// Whether one step may come after another: in between the term did not go
/// back, and within a term the recorded vote stayed.
pub open spec fn later_step(s: VoteStep, t: VoteStep) -> bool {
    &&& t.n.shared.current_term >= s.after.shared.current_term
    &&& t.n.shared.current_term == s.after.shared.current_term ==> t.vote_term
        == s.vote_term_now && t.candidate == s.candidate_now
}

/// Whether these are vote requests that one node met, in order.
pub open spec fn vote_run(run: Seq<VoteStep>) -> bool {
    &&& forall|i: int| 0 <= i < run.len() ==> vote_step(#[trigger] run[i])
    &&& forall|i: int|
        #![trigger run[i]]
        0 <= i < run.len() - 1 ==> later_step(run[i], run[i + 1])
}

/// Whether a vote in a term is on record, or the term is over.
spec fn vote_kept(s: VoteStep, term: u64, candidate: Option<Seq<u8>>) -> bool {
    s.n.shared.current_term > term || (s.n.shared.current_term == term && s.vote_term == term
        && s.candidate == candidate)
}

proof fn lemma_vote_is_kept(run: Seq<VoteStep>, i: int, j: int)
    requires
        vote_run(run),
        0 <= i < j < run.len(),
        grants(run[i].outcome),
    ensures
        vote_kept(run[j], run[i].req.term, Some(encode_utf8(run[i].req.header.addr))),
    decreases j - i,
{
    let term = run[i].req.term;
    let before = run[j - 1];
    assert(vote_step(before));
    assert(later_step(run[j - 1], run[j - 1 + 1]));
    if j > i + 1 {
        lemma_vote_is_kept(run, i, j - 1);
    }
}

/// However many vote requests a node meets, and whatever fails in between, it
/// never gives its vote to two candidates in one term.
pub proof fn law_one_vote_per_term_in_every_run(run: Seq<VoteStep>, i: int, j: int)
    requires
        vote_run(run),
        0 <= i < j < run.len(),
        grants(run[i].outcome),
        grants(run[j].outcome),
        run[i].req.term == run[j].req.term,
    ensures
        run[i].req.header.addr == run[j].req.header.addr,
{
    lemma_vote_is_kept(run, i, j);
    assert(vote_step(run[j]));
    lemma_encoding_of_vote(run[i].req, run[j].req, run[j].candidate);
}

proof fn lemma_encoding_of_vote(
    first: VoteRequestView,
    second: VoteRequestView,
    candidate: Option<Seq<u8>>,
)
    ensures
        candidate == Some(encode_utf8(first.header.addr)) && candidate == Some(
            encode_utf8(second.header.addr),
        ) ==> first.header.addr == second.header.addr,
{
    if candidate == Some(encode_utf8(first.header.addr)) && candidate == Some(
        encode_utf8(second.header.addr),
    ) {
        lemma_encoding_determines_text(first.header.addr, second.header.addr);
    }
}

/// A first vote in a term goes only to a candidate whose log is at least as
/// recent as the node's own, and only in a term that is not older.
pub proof fn law_votes_go_to_recent_logs(
    n: NodeView,
    vote_term: u64,
    candidate: Option<Seq<u8>>,
    req: VoteRequestView,
    now: Instant,
    outcome: VoteOutcome,
    after: NodeView,
    vote_term_now: u64,
    candidate_now: Option<Seq<u8>>,
)
    requires
        vote_effect(
            n,
            vote_term,
            candidate,
            req,
            now,
            outcome,
            after,
            vote_term_now,
            candidate_now,
        ),
        grants(outcome),
    ensures
        req.term >= n.shared.current_term,
        after.shared.current_term == req.term,
        !(vote_term == req.term && candidate is Some) ==> log_recent_enough(
            n,
            req.last_log_term,
            req.last_log_index,
        ),
        vote_term_now == req.term,
        candidate_now == Some(encode_utf8(req.header.addr)),
{
}

/// A vote request never lowers the term, and one of an older term changes
/// nothing but that it is observed.
pub proof fn law_vote_request_never_lowers_the_term(
    n: NodeView,
    vote_term: u64,
    candidate: Option<Seq<u8>>,
    req: VoteRequestView,
    now: Instant,
    outcome: VoteOutcome,
    after: NodeView,
    vote_term_now: u64,
    candidate_now: Option<Seq<u8>>,
)
    requires
        vote_effect(
            n,
            vote_term,
            candidate,
            req,
            now,
            outcome,
            after,
            vote_term_now,
            candidate_now,
        ),
    ensures
        after.shared.current_term >= n.shared.current_term,
        req.term < n.shared.current_term ==> after == saw_request(n, req) && !grants(outcome),
{
}

/// A pre-vote is granted only where the vote itself would not be refused for
/// the candidate's standing or log.
pub proof fn law_pre_vote_foresees_the_vote(n: NodeView, req: VoteRequestView)
    requires
        pre_vote_granted(
            n,
            (PreVoteRequestView {
                header: req.header,
                term: req.term,
                last_log_index: req.last_log_index,
                last_log_term: req.last_log_term,
            }),
        ),
    ensures
        standing(saw_request(n, req), req.header, req.term, req.leadership_transfer)
            == VoteStanding::Eligible,
        log_recent_enough(n, req.last_log_term, req.last_log_index),
{
}

/// Whoever wins an election has a log that is at least as recent as that of
/// one of the nodes that hold a committed entry: the majority that votes and
/// the majority that holds the entry share a node.
pub proof fn law_winner_is_as_recent_as_a_holder(
    servers: Seq<ServerView>,
    nodes: Map<Seq<char>, NodeView>,
    holders: Set<Seq<char>>,
    voters: Set<Seq<char>>,
    last_log_term: u64,
    last_log_index: u64,
)
    requires
        nothing_repeats(servers),
        is_majority_of(holders, servers),
        is_majority_of(voters, servers),
        forall|voter: Seq<char>| #[trigger]
            voters.contains(voter) ==> log_recent_enough(
                nodes[voter],
                last_log_term,
                last_log_index,
            ),
    ensures
        exists|holder: Seq<char>| #[trigger]
            holders.contains(holder) && log_recent_enough(
                nodes[holder],
                last_log_term,
                last_log_index,
            ),
{
    law_majorities_meet(servers, holders, voters);
}

} // verus!
