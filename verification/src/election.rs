//! Elections: when a follower stands, how a candidate campaigns, and what it
//! makes of the votes.

use crate::configuration::{majority, voter_count, votes_in, Server, ServerID, ServerSuffrage, ServerView};
use crate::error::{says, RaftError};
use crate::raft::{
    own_header, persist_vote, recorded_candidate, recorded_term, recorded_vote_term, term_answered,
    term_unsaved, vote_unrecorded, with_leader, with_state, with_term, without_leader, Fatal,
    NodeView, RaftCore,
};
use crate::stable::StableStore;
use crate::state::RaftState;
use crate::text::{
    contains_text, lemma_encoding_determines_text, same_text, text_contains,
};
use crate::time::Instant;
use crate::transport::{
    PreVoteRequestView, RequestPreVoteRequest, RequestPreVoteResponse, RequestVoteRequest,
    RequestVoteResponse, TimeoutNowResponse, VoteRequestView,
};
use crate::vote::{grants, vote_effect, VoteOutcome};
use vstd::prelude::*;
use vstd::utf8::encode_utf8;

verus! {

/// The result of a single vote or pre-vote request.
#[derive(Debug)]
pub struct VoteResult {
    pub term: u64,
    pub granted: bool,
    pub voter_id: ServerID,
}

/// A round of vote requests: the request, whom it goes to, and how many
/// votes this node gave itself.
#[derive(Debug)]
pub struct Campaign {
    pub request: RequestVoteRequest,
    pub peers: Vec<Server>,
    pub own_votes: usize,
}

/// A round of pre-vote requests.
#[derive(Debug)]
pub struct PreCampaign {
    pub request: RequestPreVoteRequest,
    pub peers: Vec<Server>,
    pub own_votes: usize,
}

/// The round that a candidacy starts with.
#[derive(Debug)]
pub enum Campaigning {
    PreVote(PreCampaign),
    Vote(Campaign),
}

/// The tally of a candidacy.
#[derive(Debug, Clone, Copy)]
pub struct Election {
    /// The term that the candidacy was started for.
    pub term: u64,
    /// Whether the pre-vote is still open.
    pub pre_vote: bool,
    pub prevote_granted: usize,
    pub prevote_refused: usize,
    pub granted: usize,
    /// A simple majority of the voters.
    pub votes_needed: usize,
}

/// What a candidate does after a vote came in.
#[derive(Debug)]
pub enum CandidateStep {
    /// Waits for more votes.
    Wait,
    /// The pre-vote is won: the timer is restarted and votes are asked for.
    Elect(Campaign),
    /// A newer term was found; the candidate is a follower now.
    StepDown,
    /// The election is won; the candidate is the leader now.
    Won,
}

/// The servers among `servers` that have a vote and are not `local`.
pub open spec fn other_voters(servers: Seq<ServerView>, local: Seq<char>) -> Seq<ServerView>
    decreases servers.len(),
{
    if servers.len() == 0 {
        servers
    } else if servers.last().suffrage == ServerSuffrage::Voter && servers.last().id != local {
        other_voters(servers.drop_last(), local).push(servers.last())
    } else {
        other_voters(servers.drop_last(), local)
    }
}

/// How many votes the node has of its own.
pub open spec fn own_voter_count(servers: Seq<ServerView>, local: Seq<char>) -> nat
    decreases servers.len(),
{
    if servers.len() == 0 {
        0
    } else {
        own_voter_count(servers.drop_last(), local) + if servers.last().suffrage
            == ServerSuffrage::Voter && servers.last().id == local {
            1nat
        } else {
            0nat
        }
    }
}

/// What a list of servers says, one by one.
pub open spec fn server_views(servers: Seq<Server>) -> Seq<ServerView> {
    servers.map_values(|s: Server| s@)
}

/// The votes of others and of the node itself are all the votes there are.
pub proof fn law_votes_are_own_or_others(servers: Seq<ServerView>, local: Seq<char>)
    ensures
        other_voters(servers, local).len() + own_voter_count(servers, local) == voter_count(
            servers,
        ),
    decreases servers.len(),
{
    if servers.len() > 0 {
        law_votes_are_own_or_others(servers.drop_last(), local);
    }
}

/// Whether the leader was heard of within the heartbeat timeout.
pub open spec fn leader_heard_of(n: NodeView, now: Instant) -> bool {
    n.shared.last_contact matches Some(last) && (if now.nanos >= last.nanos {
        (now.nanos - last.nanos) as nat
    } else {
        0
    }) < n.conf.heartbeat_timeout
}

/// Whether a follower that lost its leader stands for election: it knows a
/// configuration and has a vote in it.
pub open spec fn may_stand(n: NodeView) -> bool {
    n.configurations.latest_index != 0 && votes_in(n.configurations.latest, n.local_id)
}

/// The vote request of a candidate in the given term.
pub open spec fn vote_request(n: NodeView, term: u64) -> VoteRequestView {
    VoteRequestView {
        header: own_header(n),
        term,
        last_log_index: n.shared.spec_last_entry().0,
        last_log_term: n.shared.spec_last_entry().1,
        leadership_transfer: n.from_transfer,
    }
}

/// The pre-vote request of a candidate for the given term.
pub open spec fn pre_vote_request(n: NodeView, term: u64) -> PreVoteRequestView {
    PreVoteRequestView {
        header: own_header(n),
        term,
        last_log_index: n.shared.spec_last_entry().0,
        last_log_term: n.shared.spec_last_entry().1,
    }
}

/// A campaign that the node runs in its next term. `vote_term`, `candidate`
/// and `term` are what is recorded afterwards: where every vote of the node's
/// own was recorded, the record holds the new term and the node itself.
pub open spec fn campaigns(
    n: NodeView,
    c: Campaign,
    vote_term: u64,
    candidate: Option<Seq<u8>>,
    term: u64,
) -> bool {
    let own = own_voter_count(n.configurations.latest, n.local_id);
    let next = (n.shared.current_term + 1) as u64;
    &&& c.request@ == vote_request(n, next)
    &&& server_views(c.peers@) == other_voters(n.configurations.latest, n.local_id)
    &&& c.own_votes <= own
    &&& c.own_votes == own ==> term == next
    &&& c.own_votes == own && own > 0 ==> vote_term == next && candidate == Some(
        encode_utf8(n.local_addr),
    )
}

/// A vote of the node's own is missing only where the store, with the new term
/// on record, did not take it.
pub open spec fn own_votes_kept<S: StableStore>(n: NodeView, c: Campaign, stable: S) -> bool {
    let next = (n.shared.current_term + 1) as u64;
    c.own_votes < own_voter_count(n.configurations.latest, n.local_id) ==> exists|
        s: S,
        candidate: &[u8],
        e: RaftError,
    |
        {
            &&& term_answered(stable, next, true)
            &&& recorded_term(&s) == next
            &&& candidate@ == encode_utf8(n.local_addr)
            &&& #[trigger] vote_unrecorded(s, next, candidate, e)
        }
}

/// The tally at the start of a candidacy.
pub open spec fn fresh_election(n: NodeView) -> Election {
    Election {
        term: (n.shared.current_term + 1) as u64,
        pre_vote: !n.conf.pre_vote_disabled && !n.from_transfer,
        prevote_granted: 0,
        prevote_refused: 0,
        granted: 0,
        votes_needed: majority(voter_count(n.configurations.latest)) as usize,
    }
}

/// Whether a peer that failed so does, or does not, say that it does not know
/// pre-votes.
pub open spec fn knows_no_pre_votes(e: RaftError, unknown: bool) -> bool {
    exists|text: Seq<char>|
        says(e, text) && unknown == #[trigger] contains_text(text, "unexpected command"@)
}

/// What a candidate makes of the reply to a vote request: a failed request
/// counts as a refusal in the candidate's own term.
pub fn vote_result(
    reply: Result<RequestVoteResponse, RaftError>,
    term: u64,
    voter_id: ServerID,
) -> (r: VoteResult)
    ensures
        r.voter_id@ == voter_id@,
        match reply {
            Ok(resp) => r.term == resp.term && r.granted == resp.granted,
            Err(_) => r.term == term && !r.granted,
        },
{
    match reply {
        Ok(resp) => VoteResult { term: resp.term, granted: resp.granted, voter_id },
        Err(_) => VoteResult { term, granted: false, voter_id },
    }
}

/// What a candidate makes of the reply to a pre-vote request: a failed
/// request counts as a refusal, unless the peer does not know pre-votes, which
/// counts as granted so the cluster can progress.
pub fn pre_vote_result(
    reply: Result<RequestPreVoteResponse, RaftError>,
    term: u64,
    voter_id: ServerID,
) -> (r: VoteResult)
    ensures
        r.voter_id@ == voter_id@,
        match reply {
            Ok(resp) => r.term == resp.term && r.granted == resp.granted,
            Err(e) => r.term == term && knows_no_pre_votes(e, r.granted),
        },
{
    match reply {
        Ok(resp) => VoteResult { term: resp.term, granted: resp.granted, voter_id },
        Err(e) => {
            let unknown = text_contains(e.message().as_str(), "unexpected command");
            VoteResult { term, granted: unknown, voter_id }
        },
    }
}

impl RaftCore {
    /// What a follower does when its heartbeat timer fires: unless the leader
    /// was heard of, it is forgotten, and a follower that may stand becomes a
    /// candidate. The reason not to stand is worth one warning only, which
    /// `did_warn` remembers. Returns whether the follower stands.
    pub fn heartbeat_timeout(&mut self, now: Instant, did_warn: &mut bool) -> (stands: bool)
        ensures
            stands == (!leader_heard_of(old(self)@, now) && may_stand(old(self)@)),
            final(self)@ == if leader_heard_of(old(self)@, now) {
                old(self)@
            } else if may_stand(old(self)@) {
                with_state(without_leader(old(self)@), RaftState::Candidate)
            } else {
                without_leader(old(self)@)
            },
            *final(did_warn) == (*old(did_warn) || (!leader_heard_of(old(self)@, now)
                && !may_stand(old(self)@))),
    {
        // Check if we have had a successful contact.
        match self.shared.last_contact_time() {
            Some(last_contact) => {
                if now.since(&last_contact).shorter_than(&self.conf.heartbeat_timeout) {
                    return false;
                }
            },
            None => {},
        }
        // Heartbeat failed!
        self.clear_leader();
        if self.configurations.latest_index == 0 {
            // No known peers.
            *did_warn = true;
            return false;
        }
        if !self.configurations.latest.has_vote(self.local_id.as_str()) {
            // Not part of the configuration, or without a vote in it.
            *did_warn = true;
            return false;
        }
        self.set_state(RaftState::Candidate);
        true
    }

    /// The voters other than this node.
    fn other_voters(&self) -> (r: Vec<Server>)
        ensures
            server_views(r@) == other_voters(self@.configurations.latest, self@.local_id),
    {
        let servers = &self.configurations.latest.servers;
        let ghost views = self@.configurations.latest;
        let mut out: Vec<Server> = Vec::new();
        let mut i: usize = 0;
        assert(server_views(out@) =~= Seq::empty());
        assert(views.take(0) =~= Seq::empty());
        while i < servers.len()
            invariant
                i <= servers@.len(),
                servers == self.configurations.latest.servers,
                views == self@.configurations.latest,
                views == server_views(servers@),
                server_views(out@) == other_voters(views.take(i as int), self@.local_id),
            decreases servers@.len() - i,
        {
            assert(views.take(i + 1).drop_last() =~= views.take(i as int));
            assert(views[i as int] == servers@[i as int]@);
            let ghost before = out@;
            if servers[i].suffrage == ServerSuffrage::Voter && !same_text(
                servers[i].id.as_str(),
                self.local_id.as_str(),
            ) {
                out.push(servers[i].clone());
                assert(server_views(out@) =~= server_views(before).push(views[i as int]));
            }
            i += 1;
        }
        assert(views.take(i as int) =~= views);
        out
    }

    /// How many votes this node has of its own.
    fn own_voters(&self) -> (r: usize)
        ensures
            r == own_voter_count(self@.configurations.latest, self@.local_id),
            r <= self@.configurations.latest.len(),
    {
        let servers = &self.configurations.latest.servers;
        let ghost views = self@.configurations.latest;
        let mut count: usize = 0;
        let mut i: usize = 0;
        assert(views.take(0) =~= Seq::empty());
        while i < servers.len()
            invariant
                i <= servers@.len(),
                servers == self.configurations.latest.servers,
                views == self@.configurations.latest,
                views == server_views(servers@),
                count == own_voter_count(views.take(i as int), self@.local_id),
                count <= i,
            decreases servers@.len() - i,
        {
            assert(views.take(i + 1).drop_last() =~= views.take(i as int));
            assert(views[i as int] == servers@[i as int]@);
            if servers[i].suffrage == ServerSuffrage::Voter && same_text(
                servers[i].id.as_str(),
                self.local_id.as_str(),
            ) {
                count += 1;
            }
            i += 1;
        }
        assert(views.take(i as int) =~= views);
        count
    }

    /// Starts a campaign: the term is incremented, and this node votes for
    /// itself where it has a vote.
    pub fn elect_self<S: StableStore>(&mut self, stable: &mut S) -> (r: Result<Campaign, Fatal>)
        requires
            old(self)@.shared.current_term < u64::MAX,
        ensures
            r matches Ok(c) ==> {
                &&& final(self)@ == with_term(
                    old(self)@,
                    (old(self)@.shared.current_term + 1) as u64,
                )
                &&& campaigns(
                    old(self)@,
                    c,
                    recorded_vote_term(final(stable)),
                    recorded_candidate(final(stable)),
                    recorded_term(final(stable)),
                )
                &&& own_votes_kept(old(self)@, c, *old(stable))
            },
            r matches Err(f) ==> term_unsaved(
                *old(stable),
                (old(self)@.shared.current_term + 1) as u64,
                f,
            ) && final(self)@ == old(self)@,
    {
        // Increment the term.
        let new_term: u64 = self.shared.current_term() + 1;
        match self.set_current_term(stable, new_term) {
            Ok(()) => {},
            Err(f) => {
                return Err(f);
            },
        }
        // Construct the request.
        let (last_idx, last_term): (u64, u64) = self.shared.last_entry();
        let request = RequestVoteRequest {
            header: self.rpc_header(),
            term: new_term,
            last_log_index: last_idx,
            last_log_term: last_term,
            leadership_transfer: self.candidate_from_leadership_transfer,
        };
        // Persist a vote for ourselves, for each vote that we have.
        let own: usize = self.own_voters();
        let mut own_votes: usize = 0;
        let mut i: usize = 0;
        while i < own
            invariant
                i <= own,
                own_votes <= i,
                own_votes == i ==> recorded_term(stable) == new_term,
                own_votes == i && i > 0 ==> recorded_vote_term(stable) == new_term
                    && recorded_candidate(stable) == Some(encode_utf8(self.local_addr@)),
                own_votes < i ==> exists|s: S, candidate: &[u8], e: RaftError|
                    {
                        &&& recorded_term(&s) == new_term
                        &&& candidate@ == encode_utf8(self.local_addr@)
                        &&& #[trigger] vote_unrecorded(s, new_term, candidate, e)
                    },
            decreases own - i,
        {
            let ghost asked = *stable;
            let candidate = self.local_addr.as_str().as_bytes();
            match persist_vote(stable, new_term, candidate) {
                Ok(()) => {
                    own_votes += 1;
                },
                Err(e) => {
                    assert(vote_unrecorded(asked, new_term, candidate, e));
                },
            }
            i += 1;
        }
        let peers = self.other_voters();
        Ok(Campaign { request, peers, own_votes })
    }

    /// Starts a pre-vote campaign: the next term is proposed without
    /// changing our state.
    pub fn pre_elect_self(&self) -> (r: PreCampaign)
        requires
            self@.shared.current_term < u64::MAX,
        ensures
            r.request@ == pre_vote_request(self@, (self@.shared.current_term + 1) as u64),
            server_views(r.peers@) == other_voters(self@.configurations.latest, self@.local_id),
            r.own_votes == own_voter_count(self@.configurations.latest, self@.local_id),
    {
        let new_term: u64 = self.shared.current_term() + 1;
        let (last_idx, last_term): (u64, u64) = self.shared.last_entry();
        let request = RequestPreVoteRequest {
            header: self.rpc_header(),
            term: new_term,
            last_log_index: last_idx,
            last_log_term: last_term,
        };
        PreCampaign { request, peers: self.other_voters(), own_votes: self.own_voters() }
    }

    /// Starts a candidacy: pre-vote first unless disabled or the candidacy
    /// comes from a leadership transfer, which skips the pre-vote by design.
    pub fn start_candidacy<S: StableStore>(&mut self, stable: &mut S) -> (r: Result<
        (Election, Campaigning),
        Fatal,
    >)
        requires
            old(self)@.shared.current_term < u64::MAX,
        ensures
            r matches Ok((e, c)) ==> {
                &&& e == fresh_election(old(self)@)
                &&& e.votes_needed == majority(voter_count(old(self)@.configurations.latest))
                &&& match c {
                    Campaigning::PreVote(p) => {
                        &&& e.pre_vote
                        &&& final(self)@ == old(self)@
                        &&& *final(stable) == *old(stable)
                        &&& p.request@ == pre_vote_request(old(self)@, e.term)
                        &&& server_views(p.peers@) == other_voters(
                            old(self)@.configurations.latest,
                            old(self)@.local_id,
                        )
                        &&& p.own_votes == own_voter_count(
                            old(self)@.configurations.latest,
                            old(self)@.local_id,
                        )
                    },
                    Campaigning::Vote(v) => {
                        &&& !e.pre_vote
                        &&& final(self)@ == with_term(old(self)@, e.term)
                        &&& campaigns(
                            old(self)@,
                            v,
                            recorded_vote_term(final(stable)),
                            recorded_candidate(final(stable)),
                            recorded_term(final(stable)),
                        )
                        &&& own_votes_kept(old(self)@, v, *old(stable))
                    },
                }
            },
            r matches Err(f) ==> !fresh_election(old(self)@).pre_vote && term_unsaved(
                *old(stable),
                fresh_election(old(self)@).term,
                f,
            ) && final(self)@ == old(self)@,
    {
        let election = Election {
            term: self.shared.current_term() + 1,
            pre_vote: !self.conf.pre_vote_disabled && !self.candidate_from_leadership_transfer,
            prevote_granted: 0,
            prevote_refused: 0,
            granted: 0,
            votes_needed: self.configurations.latest.quorum_size(),
        };
        if election.pre_vote {
            let p = self.pre_elect_self();
            Ok((election, Campaigning::PreVote(p)))
        } else {
            match self.elect_self(stable) {
                Ok(c) => Ok((election, Campaigning::Vote(c))),
                Err(f) => Err(f),
            }
        }
    }

    /// Ends a candidacy: the privilege of a leadership transfer is used up.
    pub fn end_candidacy(&mut self)
        ensures
            final(self)@ == (NodeView { from_transfer: false, ..old(self)@ }),
    {
        self.candidate_from_leadership_transfer = false;
    }

    /// Counts a pre-vote.
    pub fn count_pre_vote<S: StableStore>(
        &mut self,
        stable: &mut S,
        election: &mut Election,
        vote: VoteResult,
    ) -> (r: Result<CandidateStep, Fatal>)
        requires
            old(election).pre_vote,
            old(election).prevote_granted < usize::MAX,
            old(election).prevote_refused < usize::MAX,
            old(self)@.shared.current_term < u64::MAX,
        ensures
            r matches Err(f) ==> (vote.term > old(election).term || (vote.granted && old(
                election,
            ).prevote_granted + 1 >= old(election).votes_needed) || old(
                election,
            ).prevote_granted >= old(election).votes_needed) && term_unsaved(
                *old(stable),
                if vote.term > old(election).term {
                    vote.term
                } else {
                    (old(self)@.shared.current_term + 1) as u64
                },
                f,
            ),
            r is Err ==> final(self)@ == if vote.term > old(election).term {
                with_state(old(self)@, RaftState::Follower)
            } else {
                old(self)@
            },
            r matches Ok(step) ==> {
                let granted = old(election).prevote_granted + if vote.granted {
                    1int
                } else {
                    0int
                };
                let refused = old(election).prevote_refused + if vote.granted {
                    0int
                } else {
                    1int
                };
                if vote.term > old(election).term {
                    &&& step is StepDown
                    &&& *final(election) == *old(election)
                    &&& final(self)@ == with_term(
                        with_state(old(self)@, RaftState::Follower),
                        vote.term,
                    )
                    &&& recorded_term(final(stable)) == vote.term
                    &&& recorded_vote_term(final(stable)) == recorded_vote_term(old(stable))
                    &&& recorded_candidate(final(stable)) == recorded_candidate(old(stable))
                } else if granted >= old(election).votes_needed {
                    &&& step matches CandidateStep::Elect(c)
                    &&& campaigns(
                        old(self)@,
                        c,
                        recorded_vote_term(final(stable)),
                        recorded_candidate(final(stable)),
                        recorded_term(final(stable)),
                    )
                    &&& own_votes_kept(old(self)@, c, *old(stable))
                    &&& final(self)@ == with_term(
                        old(self)@,
                        (old(self)@.shared.current_term + 1) as u64,
                    )
                    &&& *final(election) == (Election {
                        pre_vote: false,
                        prevote_granted: 0,
                        prevote_refused: 0,
                        ..*old(election)
                    })
                } else {
                    &&& step is Wait
                    &&& final(self)@ == old(self)@
                    &&& *final(stable) == *old(stable)
                    &&& *final(election) == (Election {
                        prevote_granted: granted as usize,
                        prevote_refused: refused as usize,
                        ..*old(election)
                    })
                }
            },
    {
        // Check if the term is greater than ours, bail.
        if vote.term > election.term {
            self.set_state(RaftState::Follower);
            match self.set_current_term(stable, vote.term) {
                Ok(()) => {},
                Err(f) => {
                    return Err(f);
                },
            }
            return Ok(CandidateStep::StepDown);
        }
        if vote.granted {
            election.prevote_granted = election.prevote_granted + 1;
        } else {
            election.prevote_refused = election.prevote_refused + 1;
        }
        // Won the pre-vote: proceed to a real election.
        if election.prevote_granted >= election.votes_needed {
            election.prevote_granted = 0;
            election.prevote_refused = 0;
            election.pre_vote = false;
            return match self.elect_self(stable) {
                Ok(c) => Ok(CandidateStep::Elect(c)),
                Err(f) => Err(f),
            };
        }
        Ok(CandidateStep::Wait)
    }

    /// Counts a vote.
    pub fn count_vote<S: StableStore>(
        &mut self,
        stable: &mut S,
        election: &mut Election,
        vote: VoteResult,
    ) -> (r: Result<CandidateStep, Fatal>)
        requires
            !old(election).pre_vote,
            old(election).granted < usize::MAX,
        ensures
            r matches Err(f) ==> term_unsaved(*old(stable), vote.term, f) && vote.term > old(
                self,
            )@.shared.current_term && final(self)@ == with_state(
                old(self)@,
                RaftState::Follower,
            ),
            r matches Ok(step) ==> {
                let granted = old(election).granted + if vote.granted {
                    1int
                } else {
                    0int
                };
                if vote.term > old(self)@.shared.current_term {
                    &&& step is StepDown
                    &&& *final(election) == *old(election)
                    &&& final(self)@ == with_term(
                        with_state(old(self)@, RaftState::Follower),
                        vote.term,
                    )
                    &&& recorded_term(final(stable)) == vote.term
                    &&& recorded_vote_term(final(stable)) == recorded_vote_term(old(stable))
                    &&& recorded_candidate(final(stable)) == recorded_candidate(old(stable))
                } else {
                    &&& *final(stable) == *old(stable)
                    &&& *final(election) == (Election {
                        granted: granted as usize,
                        ..*old(election)
                    })
                    &&& if granted >= old(election).votes_needed {
                        &&& step is Won
                        &&& final(self)@ == with_leader(
                            with_state(old(self)@, RaftState::Leader),
                            old(self)@.local_addr,
                            old(self)@.local_id,
                        )
                    } else {
                        &&& step is Wait
                        &&& final(self)@ == old(self)@
                    }
                }
            },
    {
        // Check if the term is greater than ours, bail.
        if vote.term > self.shared.current_term() {
            self.set_state(RaftState::Follower);
            match self.set_current_term(stable, vote.term) {
                Ok(()) => {},
                Err(f) => {
                    return Err(f);
                },
            }
            return Ok(CandidateStep::StepDown);
        }
        if vote.granted {
            election.granted = election.granted + 1;
        }
        if election.granted >= election.votes_needed {
            self.set_state(RaftState::Leader);
            let addr = self.local_addr.clone();
            let id = self.local_id.clone();
            self.set_leader(addr, id);
            return Ok(CandidateStep::Won);
        }
        Ok(CandidateStep::Wait)
    }

    /// Invoked when the leader asks this node to start an election at once.
    pub fn timeout_now(&mut self) -> (r: TimeoutNowResponse)
        ensures
            r.header@ == own_header(old(self)@),
            final(self)@ == (NodeView {
                from_transfer: true,
                ..with_state(without_leader(old(self)@), RaftState::Candidate)
            }),
    {
        self.clear_leader();
        self.set_state(RaftState::Candidate);
        self.candidate_from_leadership_transfer = true;
        TimeoutNowResponse { header: self.rpc_header() }
    }
}

/// A candidate that voted for itself gives its vote to nobody else in that
/// term.
pub proof fn law_candidate_keeps_its_own_vote(
    n: NodeView,
    c: Campaign,
    vote_term: u64,
    candidate: Option<Seq<u8>>,
    term: u64,
    later: NodeView,
    req: VoteRequestView,
    now: Instant,
    outcome: VoteOutcome,
    after: NodeView,
    vote_term_now: u64,
    candidate_now: Option<Seq<u8>>,
)
    requires
        n.shared.current_term < u64::MAX,
        campaigns(n, c, vote_term, candidate, term),
        c.own_votes > 0,
        c.own_votes == own_voter_count(n.configurations.latest, n.local_id),
        vote_effect(
            later,
            vote_term,
            candidate,
            req,
            now,
            outcome,
            after,
            vote_term_now,
            candidate_now,
        ),
        req.term == n.shared.current_term + 1,
        grants(outcome),
    ensures
        req.header.addr == n.local_addr,
{
    lemma_encoding_determines_text(req.header.addr, n.local_addr);
}

} // verus!
